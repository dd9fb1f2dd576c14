//! The decoded form of SM4/SM5 shader bytecode.
use crate::shex::opcodes::Opcode;
use smallvec::SmallVec;
use vstd::prelude::*;

verus! {

/// A short list of 32-bit words, kept in place while it is short: immediate values and table entries.
#[derive(Debug, PartialEq)]
#[verifier::external_body]
pub struct Words {
    inner: SmallVec<[u32; 4]>,
}

/// The words that a list holds, in order.
pub uninterp spec fn words_held(w: Words) -> Seq<u32>;

/// `SmallVec::new`: a list that holds nothing.
#[verifier::external_body]
fn words_new() -> (w: Words)
    ensures
        words_held(w) == Seq::<u32>::empty(),
{
    Words { inner: SmallVec::new() }
}

/// `SmallVec::push`: one word is put behind those that are there.
#[verifier::external_body]
fn words_push(w: &mut Words, value: u32)
    ensures
        words_held(*final(w)) == words_held(*old(w)).push(value),
{
    w.inner.push(value);
}

/// `SmallVec::as_slice`: the words in order.
#[verifier::external_body]
fn words_slice(w: &Words) -> (r: &[u32])
    ensures
        r@ == words_held(*w),
{
    w.inner.as_slice()
}

impl Words {
    /// The words in order.
    pub open spec fn view(&self) -> Seq<u32> {
        words_held(*self)
    }

    /// A list that holds nothing.
    pub fn new() -> (r: Self)
        ensures
            r@ == Seq::<u32>::empty(),
    {
        words_new()
    }

    /// Put a word behind those that are there.
    pub fn push(&mut self, value: u32)
        ensures
            final(self)@ == old(self)@.push(value),
    {
        words_push(self, value)
    }

    /// The words in order.
    pub fn as_slice(&self) -> (r: &[u32])
        ensures
            r@ == self@,
    {
        words_slice(self)
    }

    /// A list of the given words.
    pub fn from_words(words: &[u32]) -> (r: Self)
        ensures
            r@ == words@,
    {
        let mut r = Words::new();
        let mut i: usize = 0;
        while i < words.len()
            invariant
                i <= words@.len(),
                r@ == words@.take(i as int),
            decreases words@.len() - i,
        {
            r.push(words[i]);
            i = i + 1;
        }
        r
    }
}

impl Clone for Words {
    fn clone(&self) -> (r: Self)
        ensures
            r@ == self@,
    {
        Words::from_words(self.as_slice())
    }
}

/// A short list of flag names, kept in place while it is short.
#[derive(Debug, PartialEq)]
#[verifier::external_body]
pub struct FlagNames {
    inner: SmallVec<[&'static str; 8]>,
}

/// The names that a list holds, in order.
pub uninterp spec fn names_held(n: FlagNames) -> Seq<&'static str>;

/// `SmallVec::new`: a list that holds nothing.
#[verifier::external_body]
fn names_new() -> (n: FlagNames)
    ensures
        names_held(n) == Seq::<&'static str>::empty(),
{
    FlagNames { inner: SmallVec::new() }
}

/// `SmallVec::push`: one name is put behind those that are there.
#[verifier::external_body]
fn names_push(n: &mut FlagNames, name: &'static str)
    ensures
        names_held(*final(n)) == names_held(*old(n)).push(name),
{
    n.inner.push(name);
}

/// `SmallVec::as_slice`: the names in order.
#[verifier::external_body]
fn names_slice(n: &FlagNames) -> (r: &[&'static str])
    ensures
        r@ == names_held(*n),
{
    n.inner.as_slice()
}

impl FlagNames {
    /// The text of each name, in order.
    pub open spec fn view(&self) -> Seq<Seq<char>> {
        names_held(*self).map_values(|s: &'static str| s@)
    }

    /// A list that holds nothing.
    pub fn new() -> (r: Self)
        ensures
            r@ == Seq::<Seq<char>>::empty(),
    {
        let r = names_new();
        proof {
            assert(r@ =~= Seq::<Seq<char>>::empty());
        }
        r
    }

    /// Put a name behind those that are there.
    pub fn push(&mut self, name: &'static str)
        ensures
            final(self)@ == old(self)@.push(name@),
    {
        names_push(self, name);
        proof {
            assert(self@ =~= old(self)@.push(name@));
        }
    }

    /// The names in order.
    pub fn as_slice(&self) -> (r: &[&'static str])
        ensures
            r@.map_values(|s: &'static str| s@) == self@,
    {
        names_slice(self)
    }

    /// A list of the given names.
    pub fn from_names(names: &[&'static str]) -> (r: Self)
        ensures
            r@ == names@.map_values(|s: &'static str| s@),
    {
        let mut r = FlagNames::new();
        let mut i: usize = 0;
        let ghost all = names@.map_values(|s: &'static str| s@);
        proof {
            assert(all.take(0) =~= Seq::<Seq<char>>::empty());
        }
        while i < names.len()
            invariant
                i <= names@.len(),
                all == names@.map_values(|s: &'static str| s@),
                r@ == all.take(i as int),
            decreases names@.len() - i,
        {
            r.push(names[i]);
            i = i + 1;
            proof {
                assert(all.take(i as int) =~= all.take(i - 1).push(all[i - 1]));
            }
        }
        proof {
            assert(all.take(i as int) =~= all);
        }
        r
    }
}

impl Clone for FlagNames {
    fn clone(&self) -> (r: Self)
        ensures
            r@ == self@,
    {
        FlagNames::from_names(self.as_slice())
    }
}

/// The operands of an instruction.
pub type Operands = Vec<Operand>;

/// The index levels of an operand.
pub type Indices = Vec<OperandIndex>;

/// A decoded SM4/SM5 shader program.
#[derive(Debug, Clone)]
pub struct Program {
    /// Shader stage name (`"vs"`, `"ps"`, `"gs"`, `"hs"`, `"ds"`, or `"cs"`).
    pub shader_type: &'static str,
    /// Shader model major version (4 or 5).
    pub major_version: u32,
    /// Shader model minor version.
    pub minor_version: u32,
    /// Decoded instruction stream.
    pub instructions: Vec<Instruction>,
    /// Warnings encountered during decoding (malformed tokens, truncated data, etc.).
    pub warnings: Vec<String>,
    /// Original FourCC (`SHEX` or `SHDR`) for round-trip serialization.
    pub fourcc: [u8; 4],
}

/// A single decoded shader instruction.
#[derive(Debug, Clone, PartialEq)]
pub struct Instruction {
    /// The instruction opcode.
    pub opcode: Opcode,
    /// Whether the `_sat` (saturate) modifier is present (token0 bit 13).
    pub saturate: bool,
    /// Conditional test: `true` = non-zero, `false` = zero (token0 bit 18).
    ///
    /// Only meaningful for conditional opcodes (`if`, `breakc`, `callc`,
    /// `continuec`, `discard`, `retc`).
    pub test_nonzero: bool,
    /// SM5 precise modifier bitmask (token0 bits 19–22).
    ///
    /// Each bit corresponds to a component (x=0, y=1, z=2, w=3) that
    /// requires IEEE-compliant results.
    pub precise_mask: u8,
    /// `resinfo` return type: 0 = float, 1 = rcpFloat, 2 = uint (token0 bits 11–12).
    pub resinfo_return_type: Option<u32>,
    /// Sync flags for the `sync` opcode (token0 bits 11–14).
    ///
    /// Bit 0 = thread-group shared memory barrier,
    /// bit 1 = thread-group execution barrier,
    /// bit 2 = UAV memory globally-coherent,
    /// bit 3 = typed UAV coherent.
    pub sync_flags: u8,
    /// Texture sample/ld offsets from extended opcode token (u, v, w as signed 4-bit).
    pub tex_offsets: Option<[i8; 3]>,
    /// SM5.0 extended opcode type 2: resource dimension + stride for structured buffers.
    ///
    /// Encoded as the raw extended token dword (bits \[6:10\] = dimension, \[11:31\] = stride).
    pub resource_dim: Option<u32>,
    /// SM5.0 extended opcode type 3: per-component resource return types.
    ///
    /// Encoded as the raw extended token dword (bits \[6:9\], \[10:13\], \[14:17\], \[18:21\]).
    pub resource_return_type: Option<u32>,
    /// Instruction-specific payload (operands, declaration data, etc.).
    pub kind: InstructionKind,
}

/// Instruction-specific payload, split by category (declarations vs. generic ALU/flow).
#[allow(inconsistent_fields)]
#[derive(Debug, Clone, PartialEq)]
pub enum InstructionKind {
    /// A non-declaration instruction (ALU, flow-control, memory, etc.).
    Generic {
        /// Instruction operands (destination first, then sources).
        operands: Operands,
    },
    /// `dcl_globalFlags` — shader-wide capability flags.
    DclGlobalFlags {
        /// Active flag strings (e.g. `"refactoringAllowed"`, `"enableDoublePrecisionFloatOps"`).
        flags: FlagNames,
    },
    /// `dcl_input` / `dcl_input_ps` — input register declaration.
    DclInput {
        /// PS interpolation mode (e.g. `"linear"`, `"constant"`), if applicable.
        interpolation: Option<&'static str>,
        /// System value semantic (e.g. `"position"`, `"undefined"`), if present.
        system_value: Option<&'static str>,
        /// Input register operands.
        operands: Operands,
    },
    /// `dcl_output` / `dcl_output_sgv` — output register declaration.
    DclOutput {
        /// System value semantic, if present.
        system_value: Option<&'static str>,
        /// Output register operands.
        operands: Operands,
    },
    /// `dcl_resource` — SRV resource declaration (Texture1D/2D/3D/Cube/etc.).
    DclResource {
        /// Resource dimension name (e.g. `"texture2d"`, `"buffer"`).
        dimension: &'static str,
        /// MSAA sample count (token0 bits 16–22). Non-zero for `texture2dms`
        /// and `texture2dmsarray` resources.
        sample_count: u32,
        /// Per-component return types (e.g. `[Float, Float, Float, Float]`).
        return_type: [ReturnType; 4],
        /// Resource register operands.
        operands: Operands,
    },
    /// `dcl_sampler` — sampler state declaration.
    DclSampler {
        /// Sampler mode (`"default"`, `"comparison"`, `"mono"`).
        mode: &'static str,
        /// Sampler register operands.
        operands: Operands,
    },
    /// `dcl_constantbuffer` — constant-buffer binding.
    DclConstantBuffer {
        /// Access pattern (`"immediateIndexed"` or `"dynamicIndexed"`).
        access: &'static str,
        /// Constant-buffer register operands.
        operands: Operands,
    },
    /// `dcl_temps` — number of temporary registers.
    DclTemps {
        /// Number of temporary registers to allocate.
        count: u32,
    },
    /// `dcl_indexableTemp` — an indexable temporary register array.
    DclIndexableTemp {
        /// Register array index.
        reg: u32,
        /// Number of elements in the array.
        size: u32,
        /// Number of components per element.
        components: u32,
    },
    /// `dcl_inputPrimitive` — geometry shader input primitive topology.
    DclGsInputPrimitive {
        /// Input primitive type.
        primitive: GsPrimitive,
    },
    /// `dcl_outputTopology` — geometry shader output topology.
    DclGsOutputTopology {
        /// Output topology.
        topology: GsOutputTopology,
    },
    /// `dcl_maxOutputVertexCount` — GS max output vertex count.
    DclMaxOutputVertexCount {
        /// Maximum vertices emitted per invocation.
        count: u32,
    },
    /// `dcl_gs_instance_count` — number of GS instances.
    DclGsInstanceCount {
        /// Number of geometry shader instances.
        count: u32,
    },
    /// `dcl_output_control_point_count` — HS output control point count.
    DclOutputControlPointCount {
        /// Number of output control points.
        count: u32,
    },
    /// `dcl_input_control_point_count` — HS input control point count.
    DclInputControlPointCount {
        /// Number of input control points.
        count: u32,
    },
    /// `dcl_tess_domain` — tessellator domain (tri, quad, isoline).
    DclTessDomain {
        /// Domain name string.
        domain: &'static str,
    },
    /// `dcl_tess_partitioning` — tessellator partitioning mode.
    DclTessPartitioning {
        /// Partitioning mode string.
        partitioning: &'static str,
    },
    /// `dcl_tess_output_primitive` — tessellator output primitive type.
    DclTessOutputPrimitive {
        /// Primitive type string.
        primitive: &'static str,
    },
    /// `dcl_hs_max_tessfactor` — maximum tessellation factor.
    DclHsMaxTessFactor {
        /// The bits of the maximum tessellation factor, a 32-bit float.
        value: u32,
    },
    /// `dcl_hs_fork_phase_instance_count` — HS fork/join phase instance count.
    DclHsForkPhaseInstanceCount {
        /// Number of phase instances.
        count: u32,
    },
    /// `dcl_thread_group` — compute shader thread group dimensions.
    DclThreadGroup {
        /// Thread group X dimension.
        x: u32,
        /// Thread group Y dimension.
        y: u32,
        /// Thread group Z dimension.
        z: u32,
    },
    /// `dcl_uav_typed` — typed UAV declaration.
    DclUavTyped {
        /// UAV resource dimension.
        dimension: &'static str,
        /// UAV flags (token0 bits 16–23): bit 0 = globally coherent, bit 1 = ROV.
        flags: u32,
        /// Per-component return types.
        return_type: [ReturnType; 4],
        /// UAV register operands.
        operands: Operands,
    },
    /// `dcl_uav_raw` — raw (byte-address) UAV declaration.
    DclUavRaw {
        /// UAV flags (globally coherent, etc.).
        flags: u32,
        /// UAV register operands.
        operands: Operands,
    },
    /// `dcl_uav_structured` — structured UAV declaration.
    DclUavStructured {
        /// UAV flags (globally coherent, etc.).
        flags: u32,
        /// Structure byte stride.
        stride: u32,
        /// UAV register operands.
        operands: Operands,
    },
    /// `dcl_resource_raw` — raw (byte-address) SRV declaration.
    DclResourceRaw {
        /// SRV register operands.
        operands: Operands,
    },
    /// `dcl_resource_structured` — structured SRV declaration.
    DclResourceStructured {
        /// Structure byte stride.
        stride: u32,
        /// SRV register operands.
        operands: Operands,
    },
    /// `dcl_function_body` — declares a function body slot.
    DclFunctionBody {
        /// Function body index.
        index: u32,
    },
    /// `dcl_function_table` — declares a function table for interface dispatch.
    DclFunctionTable {
        /// Table index.
        table_index: u32,
        /// Function body indices in this table.
        body_indices: Words,
    },
    /// `dcl_interface` — declares a class interface binding.
    DclInterface {
        /// Interface index.
        interface_index: u32,
        /// Number of call sites using this interface.
        num_call_sites: u32,
        /// Function table indices for each type implementing the interface.
        table_indices: Words,
    },
    /// `dcl_index_range` — declares an indexable register range.
    DclIndexRange {
        /// Register operands defining the range start.
        operands: Operands,
        /// Number of registers in the range.
        count: u32,
    },
    /// Hull-shader phase marker (`hs_control_point_phase`, `hs_fork_phase`, etc.).
    HsPhase,
    /// `customdata` — embedded constant buffer or opaque blob.
    CustomData {
        /// Custom data sub-type (ICB, comment, opaque, etc.).
        subtype: CustomDataType,
        /// ICB values: the bits of four-component float vectors.
        values: Vec<[u32; 4]>,
        /// Total dword count of the custom data block (including header).
        raw_dword_count: usize,
        /// The words behind the header and the rows of values: the whole body of a block without values.
        rest: Vec<u32>,
    },
}

/// Sub-type tag for `customdata` blocks.
#[derive(Debug, Clone, Copy, PartialEq, Eq, Structural)]
pub enum CustomDataType {
    /// Comment block (opaque to the shader runtime).
    Comment,
    /// Debug information.
    DebugInfo,
    /// Opaque / unrecognised custom data.
    Opaque,
    /// Immediate constant buffer (ICB) data.
    ImmediateConstantBuffer,
    /// Unknown sub-type with the raw tag value.
    Other(u32),
}

/// Geometry shader input primitive type (`D3D10_SB_PRIMITIVE`).
///
/// Encodes the input topology for a geometry shader. Values match the
/// `D3D10_SB_PRIMITIVE` / `D3D11_SB_PRIMITIVE` enum from
/// `d3d11TokenizedProgramFormat.hpp`.
#[derive(Debug, Clone, Copy, PartialEq, Eq, Structural)]
pub enum GsPrimitive {
    /// Undefined (0).
    Undefined,
    /// Point (1).
    Point,
    /// Line (2).
    Line,
    /// Triangle (3).
    Triangle,
    /// Line with adjacency (6).
    LineAdj,
    /// Triangle with adjacency (7).
    TriangleAdj,
    /// N-control-point patch (8–39 → 1–32 control points).
    ControlPointPatch(u8),
}

/// Geometry shader output primitive topology (`D3D10_SB_PRIMITIVE_TOPOLOGY`).
///
/// Encodes the output topology for a geometry shader. Values match
/// `D3D10_SB_PRIMITIVE_TOPOLOGY` from `d3d11TokenizedProgramFormat.hpp`.
#[derive(Debug, Clone, Copy, PartialEq, Eq, Structural)]
pub enum GsOutputTopology {
    /// Undefined (0).
    Undefined,
    /// Point list (1).
    PointList,
    /// Line list (2).
    LineList,
    /// Line strip (3).
    LineStrip,
    /// Triangle list (4).
    TriangleList,
    /// Triangle strip (5).
    TriangleStrip,
    /// Line list with adjacency (10).
    LineListAdj,
    /// Line strip with adjacency (11).
    LineStripAdj,
    /// Triangle list with adjacency (12).
    TriangleListAdj,
    /// Triangle strip with adjacency (13).
    TriangleStripAdj,
}

/// A single source or destination operand.
#[derive(Debug, PartialEq)]
pub struct Operand {
    /// Register file (temp, input, output, constant-buffer, etc.).
    pub reg_type: RegisterType,
    /// Component selection (mask, swizzle, or scalar select).
    pub components: ComponentSelect,
    /// Source modifier: negate.
    pub negate: bool,
    /// Source modifier: absolute value.
    pub abs: bool,
    /// Register index levels (immediate, relative, or both).
    pub indices: Indices,
    /// Inline immediate values (for `Immediate32` / `Immediate64` operands).
    pub immediate_values: Words,
}

/// How components are selected on an operand.
///
/// Each variant encodes both the `num_components` field (bits 0–1 of the
/// operand token) and the selection mode (bits 2–3), so the encoder can
/// reconstruct the full operand token without a separate raw field.
#[derive(Debug, Clone, Copy, PartialEq, Eq)]
pub enum ComponentSelect {
    /// Zero components (`num_components = 0`). No selection bits.
    ZeroComponent,
    /// One component / scalar (`num_components = 1`). No selection bits.
    OneComponent,
    /// Four-component write mask (`num_components = 2`, sel_mode = 0).
    Mask(u8),
    /// Four-component swizzle (`num_components = 2`, sel_mode = 1).
    Swizzle([u8; 4]),
    /// Four-component single select (`num_components = 2`, sel_mode = 2).
    Scalar(u8),
}

/// SM4/SM5 operand register type (`D3D10_SB_OPERAND_TYPE`).
#[derive(Debug, Clone, Copy, PartialEq, Eq, Structural)]
pub enum RegisterType {
    /// General-purpose temporary register (`r#`).
    Temp,
    /// Shader input register (`v#`).
    Input,
    /// Shader output register (`o#`).
    Output,
    /// Indexable temporary register array (`x#`).
    IndexableTemp,
    /// 32-bit inline immediate value (`l(...)`).
    Immediate32,
    /// 64-bit inline immediate value (`d(...)`).
    Immediate64,
    /// Sampler state (`s#`).
    Sampler,
    /// Shader resource view (`t#`).
    Resource,
    /// Constant buffer (`cb#`).
    ConstantBuffer,
    /// Immediate constant buffer (ICB, from `customdata`).
    ImmConstBuffer,
    /// Subroutine label.
    Label,
    /// System-generated primitive ID input.
    InputPrimitiveID,
    /// Pixel shader depth output (`oDepth`).
    OutputDepth,
    /// Null register (discard writes / unused reads).
    Null,
    /// Rasterizer register.
    Rasterizer,
    /// Sample coverage mask output (`oMask`).
    OutputCoverageMask,
    /// GS output stream selector.
    Stream,
    /// Function body reference (for interface dispatch).
    FunctionBody,
    /// Function table reference (for interface dispatch).
    FunctionTable,
    /// Class interface pointer.
    Interface,
    /// Function input parameter.
    FunctionInput,
    /// Function output parameter.
    FunctionOutput,
    /// HS output control-point ID (`vOutputControlPointID`).
    OutputControlPointID,
    /// HS fork-phase instance ID.
    ForkInstanceID,
    /// HS join-phase instance ID.
    JoinInstanceID,
    /// HS/DS input control point (`vicp`).
    InputControlPoint,
    /// HS output control point (`vocp`).
    OutputControlPoint,
    /// Patch constant data register (`vpc`).
    PatchConstant,
    /// DS domain location input (`vDomain`).
    DomainLocation,
    /// Class `this` pointer.
    ThisPointer,
    /// Unordered access view (`u#`).
    Uav,
    /// Thread-group shared memory (`g#`).
    ThreadGroupSharedMemory,
    /// Compute shader thread ID (`vThreadID`).
    ThreadID,
    /// Compute shader thread-group ID (`vThreadGroupID`).
    ThreadGroupID,
    /// Thread ID within the group (`vThreadIDInGroup`).
    ThreadIDInGroup,
    /// Sample coverage input (`vCoverage`).
    Coverage,
    /// Flattened thread ID within the group.
    ThreadIDInGroupFlattened,
    /// GS instance ID (`vGSInstanceID`).
    GsInstanceID,
    /// Depth output with greater-or-equal constraint (`oDepthGE`).
    OutputDepthGE,
    /// Depth output with less-or-equal constraint (`oDepthLE`).
    OutputDepthLE,
    /// GPU cycle counter.
    CycleCounter,
    /// Unrecognised register type (raw value preserved).
    Unknown(u32),
}

/// An operand index level (register indices can be multi-dimensional).
#[derive(Debug, PartialEq)]
pub enum OperandIndex {
    /// 32-bit immediate index.
    Imm32(u32),
    /// 64-bit immediate index.
    Imm64(u64),
    /// Fully relative index (address computed by another operand).
    Relative(Box<Operand>),
    /// Base immediate offset plus a relative operand.
    RelativePlusImm(u32, Box<Operand>),
}

/// Resource return type for SRV / UAV declarations.
#[derive(Debug, Clone, Copy, PartialEq, Eq, Structural)]
pub enum ReturnType {
    /// Unsigned normalised (`[0, 1]`).
    Unorm,
    /// Signed normalised (`[-1, 1]`).
    Snorm,
    /// Signed 32-bit integer.
    Sint,
    /// Unsigned 32-bit integer.
    Uint,
    /// 32-bit IEEE float.
    Float,
    /// Mixed return types across components.
    Mixed,
    /// 64-bit double-precision float.
    Double,
    /// Continuation of a previous component (unused in practice).
    Continued,
    /// Component is unused.
    Unused,
    /// Unrecognised return type (raw value preserved).
    Unknown(u32),
}

/// What a program holds.
#[verifier::ext_equal]
pub struct ProgramModel {
    pub shader_type: Seq<char>,
    pub major_version: u32,
    pub minor_version: u32,
    pub instructions: Seq<InstructionModel>,
    pub warnings: Seq<Seq<char>>,
    pub fourcc: [u8; 4],
}

/// What an instruction holds.
#[verifier::ext_equal]
pub struct InstructionModel {
    pub opcode: Opcode,
    pub saturate: bool,
    pub test_nonzero: bool,
    pub precise_mask: u8,
    pub resinfo_return_type: Option<u32>,
    pub sync_flags: u8,
    pub tex_offsets: Option<[i8; 3]>,
    pub resource_dim: Option<u32>,
    pub resource_return_type: Option<u32>,
    pub kind: KindModel,
}

/// What an operand holds.
#[verifier::ext_equal]
pub struct OperandModel {
    pub reg_type: RegisterType,
    pub components: ComponentSelect,
    pub negate: bool,
    pub abs: bool,
    pub indices: Seq<IndexModel>,
    pub immediate_values: Seq<u32>,
}

/// What an index level of an operand holds.
#[verifier::ext_equal]
pub enum IndexModel {
    Imm32(u32),
    Imm64(u64),
    Relative(Box<OperandModel>),
    RelativePlusImm(u32, Box<OperandModel>),
}

/// What the payload of an instruction holds.
#[verifier::ext_equal]
#[allow(inconsistent_fields)]
pub enum KindModel {
    Generic { operands: Seq<OperandModel> },
    DclGlobalFlags { flags: Seq<Seq<char>> },
    DclInput { interpolation: Option<Seq<char>>, system_value: Option<Seq<char>>, operands: Seq<OperandModel> },
    DclOutput { system_value: Option<Seq<char>>, operands: Seq<OperandModel> },
    DclResource { dimension: Seq<char>, sample_count: u32, return_type: [ReturnType; 4], operands: Seq<OperandModel> },
    DclSampler { mode: Seq<char>, operands: Seq<OperandModel> },
    DclConstantBuffer { access: Seq<char>, operands: Seq<OperandModel> },
    DclTemps { count: u32 },
    DclIndexableTemp { reg: u32, size: u32, components: u32 },
    DclGsInputPrimitive { primitive: GsPrimitive },
    DclGsOutputTopology { topology: GsOutputTopology },
    DclMaxOutputVertexCount { count: u32 },
    DclGsInstanceCount { count: u32 },
    DclOutputControlPointCount { count: u32 },
    DclInputControlPointCount { count: u32 },
    DclTessDomain { domain: Seq<char> },
    DclTessPartitioning { partitioning: Seq<char> },
    DclTessOutputPrimitive { primitive: Seq<char> },
    DclHsMaxTessFactor { value: u32 },
    DclHsForkPhaseInstanceCount { count: u32 },
    DclThreadGroup { x: u32, y: u32, z: u32 },
    DclUavTyped { dimension: Seq<char>, flags: u32, return_type: [ReturnType; 4], operands: Seq<OperandModel> },
    DclUavRaw { flags: u32, operands: Seq<OperandModel> },
    DclUavStructured { flags: u32, stride: u32, operands: Seq<OperandModel> },
    DclResourceRaw { operands: Seq<OperandModel> },
    DclResourceStructured { stride: u32, operands: Seq<OperandModel> },
    DclFunctionBody { index: u32 },
    DclFunctionTable { table_index: u32, body_indices: Seq<u32> },
    DclInterface { interface_index: u32, num_call_sites: u32, table_indices: Seq<u32> },
    DclIndexRange { operands: Seq<OperandModel>, count: u32 },
    HsPhase,
    CustomData { subtype: CustomDataType, values: Seq<[u32; 4]>, raw_dword_count: usize, rest: Seq<u32> },
}

/// The text of an optional name.
pub open spec fn text_model(s: Option<&'static str>) -> Option<Seq<char>> {
    match s {
        Some(t) => Some(t@),
        None => None,
    }
}

/// What each operand of a list holds.
pub open spec fn operand_models(operands: Seq<Operand>) -> Seq<OperandModel> {
    Seq::new(operands.len(), |i: int| operands[i]@)
}

/// What each instruction of a list holds.
pub open spec fn instruction_models(instructions: Seq<Instruction>) -> Seq<InstructionModel> {
    Seq::new(instructions.len(), |i: int| instructions[i]@)
}

impl Program {
    /// What the program holds.
    pub open spec fn view(&self) -> ProgramModel {
        ProgramModel {
            shader_type: self.shader_type@,
            major_version: self.major_version,
            minor_version: self.minor_version,
            instructions: instruction_models(self.instructions@),
            warnings: crate::text::views(self.warnings@),
            fourcc: self.fourcc,
        }
    }
}

impl OperandIndex {
    /// What the index level holds.
    pub open spec fn view(&self) -> IndexModel
        decreases self,
    {
        match self {
            OperandIndex::Imm32(v) => IndexModel::Imm32(*v),
            OperandIndex::Imm64(v) => IndexModel::Imm64(*v),
            OperandIndex::Relative(sub) => IndexModel::Relative(Box::new((**sub)@)),
            OperandIndex::RelativePlusImm(imm, sub) => IndexModel::RelativePlusImm(*imm, Box::new((**sub)@)),
        }
    }
}

impl Operand {
    /// What the operand holds.
    pub open spec fn view(&self) -> OperandModel
        decreases self,
    {
        OperandModel {
            reg_type: self.reg_type,
            components: self.components,
            negate: self.negate,
            abs: self.abs,
            indices: Seq::new(
                self.indices@.len(),
                |i: int| if 0 <= i < self.indices@.len() { self.indices@[i]@ } else { IndexModel::Imm32(0) },
            ),
            immediate_values: self.immediate_values@,
        }
    }
}

impl OperandIndex {
    /// A copy of the index level.
    pub fn duplicate(&self) -> (r: Self)
        ensures
            r@ == self@,
        decreases self, 0nat,
    {
        match self {
            OperandIndex::Imm32(v) => OperandIndex::Imm32(*v),
            OperandIndex::Imm64(v) => OperandIndex::Imm64(*v),
            OperandIndex::Relative(sub) => OperandIndex::Relative(Box::new(sub.duplicate())),
            OperandIndex::RelativePlusImm(imm, sub) => OperandIndex::RelativePlusImm(*imm, Box::new(sub.duplicate())),
        }
    }
}

impl Operand {
    /// A copy of the operand.
    pub fn duplicate(&self) -> (r: Self)
        ensures
            r@ == self@,
        decreases self, 0nat,
    {
        let mut indices: Vec<OperandIndex> = Vec::new();
        let mut i: usize = 0;
        while i < self.indices.len()
            invariant
                i <= self.indices@.len(),
                indices@.len() == i,
                forall|k: int| 0 <= k < i ==> (#[trigger] indices@[k])@ == self.indices@[k]@,
            decreases self.indices@.len() - i,
        {
            indices.push(self.indices[i].duplicate());
            i = i + 1;
        }
        let r = Operand {
            reg_type: self.reg_type,
            components: self.components,
            negate: self.negate,
            abs: self.abs,
            indices,
            immediate_values: Words::from_words(self.immediate_values.as_slice()),
        };
        proof {
            assert(r@.indices =~= self@.indices);
            assert(r@.immediate_values =~= self@.immediate_values);
        }
        r
    }
}

impl Clone for OperandIndex {
    fn clone(&self) -> (r: Self)
        ensures
            r@ == self@,
    {
        self.duplicate()
    }
}

impl Clone for Operand {
    fn clone(&self) -> (r: Self)
        ensures
            r@ == self@,
    {
        self.duplicate()
    }
}

impl Instruction {
    /// What the instruction holds.
    pub open spec fn view(&self) -> InstructionModel {
        InstructionModel {
            opcode: self.opcode,
            saturate: self.saturate,
            test_nonzero: self.test_nonzero,
            precise_mask: self.precise_mask,
            resinfo_return_type: self.resinfo_return_type,
            sync_flags: self.sync_flags,
            tex_offsets: self.tex_offsets,
            resource_dim: self.resource_dim,
            resource_return_type: self.resource_return_type,
            kind: self.kind@,
        }
    }

    /// The operands of the instruction, none for a declaration that has its data in the token.
    pub fn operands(&self) -> (r: &[Operand])
        ensures
            operand_models(r@) == self@.kind.operands(),
    {
        self.kind.operands()
    }
}

impl InstructionKind {
    /// What the payload holds.
    pub open spec fn view(&self) -> KindModel {
        match *self {
            InstructionKind::Generic { operands } => KindModel::Generic { operands: operand_models(operands@) },
            InstructionKind::DclGlobalFlags { flags } => KindModel::DclGlobalFlags { flags: flags@ },
            InstructionKind::DclInput { interpolation, system_value, operands } => KindModel::DclInput { interpolation: text_model(interpolation), system_value: text_model(system_value), operands: operand_models(operands@) },
            InstructionKind::DclOutput { system_value, operands } => KindModel::DclOutput { system_value: text_model(system_value), operands: operand_models(operands@) },
            InstructionKind::DclResource { dimension, sample_count, return_type, operands } => KindModel::DclResource { dimension: dimension@, sample_count, return_type, operands: operand_models(operands@) },
            InstructionKind::DclSampler { mode, operands } => KindModel::DclSampler { mode: mode@, operands: operand_models(operands@) },
            InstructionKind::DclConstantBuffer { access, operands } => KindModel::DclConstantBuffer { access: access@, operands: operand_models(operands@) },
            InstructionKind::DclTemps { count } => KindModel::DclTemps { count },
            InstructionKind::DclIndexableTemp { reg, size, components } => KindModel::DclIndexableTemp { reg, size, components },
            InstructionKind::DclGsInputPrimitive { primitive } => KindModel::DclGsInputPrimitive { primitive },
            InstructionKind::DclGsOutputTopology { topology } => KindModel::DclGsOutputTopology { topology },
            InstructionKind::DclMaxOutputVertexCount { count } => KindModel::DclMaxOutputVertexCount { count },
            InstructionKind::DclGsInstanceCount { count } => KindModel::DclGsInstanceCount { count },
            InstructionKind::DclOutputControlPointCount { count } => KindModel::DclOutputControlPointCount { count },
            InstructionKind::DclInputControlPointCount { count } => KindModel::DclInputControlPointCount { count },
            InstructionKind::DclTessDomain { domain } => KindModel::DclTessDomain { domain: domain@ },
            InstructionKind::DclTessPartitioning { partitioning } => KindModel::DclTessPartitioning { partitioning: partitioning@ },
            InstructionKind::DclTessOutputPrimitive { primitive } => KindModel::DclTessOutputPrimitive { primitive: primitive@ },
            InstructionKind::DclHsMaxTessFactor { value } => KindModel::DclHsMaxTessFactor { value },
            InstructionKind::DclHsForkPhaseInstanceCount { count } => KindModel::DclHsForkPhaseInstanceCount { count },
            InstructionKind::DclThreadGroup { x, y, z } => KindModel::DclThreadGroup { x, y, z },
            InstructionKind::DclUavTyped { dimension, flags, return_type, operands } => KindModel::DclUavTyped { dimension: dimension@, flags, return_type, operands: operand_models(operands@) },
            InstructionKind::DclUavRaw { flags, operands } => KindModel::DclUavRaw { flags, operands: operand_models(operands@) },
            InstructionKind::DclUavStructured { flags, stride, operands } => KindModel::DclUavStructured { flags, stride, operands: operand_models(operands@) },
            InstructionKind::DclResourceRaw { operands } => KindModel::DclResourceRaw { operands: operand_models(operands@) },
            InstructionKind::DclResourceStructured { stride, operands } => KindModel::DclResourceStructured { stride, operands: operand_models(operands@) },
            InstructionKind::DclFunctionBody { index } => KindModel::DclFunctionBody { index },
            InstructionKind::DclFunctionTable { table_index, body_indices } => KindModel::DclFunctionTable { table_index, body_indices: body_indices@ },
            InstructionKind::DclInterface { interface_index, num_call_sites, table_indices } => KindModel::DclInterface { interface_index, num_call_sites, table_indices: table_indices@ },
            InstructionKind::DclIndexRange { operands, count } => KindModel::DclIndexRange { operands: operand_models(operands@), count },
            InstructionKind::HsPhase => KindModel::HsPhase,
            InstructionKind::CustomData { subtype, values, raw_dword_count, rest } => KindModel::CustomData { subtype, values: values@, raw_dword_count, rest: rest@ },
        }
    }

    /// The operands of the payload, none where it has no list of them.
    pub fn operands(&self) -> (r: &[Operand])
        ensures
            operand_models(r@) == self@.operands(),
    {
        match self {
            InstructionKind::Generic { operands, .. } => operands.as_slice(),
            InstructionKind::DclInput { operands, .. } => operands.as_slice(),
            InstructionKind::DclOutput { operands, .. } => operands.as_slice(),
            InstructionKind::DclResource { operands, .. } => operands.as_slice(),
            InstructionKind::DclSampler { operands, .. } => operands.as_slice(),
            InstructionKind::DclConstantBuffer { operands, .. } => operands.as_slice(),
            InstructionKind::DclUavTyped { operands, .. } => operands.as_slice(),
            InstructionKind::DclUavRaw { operands, .. } => operands.as_slice(),
            InstructionKind::DclUavStructured { operands, .. } => operands.as_slice(),
            InstructionKind::DclResourceRaw { operands, .. } => operands.as_slice(),
            InstructionKind::DclResourceStructured { operands, .. } => operands.as_slice(),
            InstructionKind::DclIndexRange { operands, .. } => operands.as_slice(),
            _ => {
                let none: &[Operand] = &[];
                proof {
                    assert(operand_models(none@) =~= Seq::<OperandModel>::empty());
                }
                none
            },
        }
    }
}

impl KindModel {
    /// The operands of the payload, none where it has no list of them.
    pub open spec fn operands(self) -> Seq<OperandModel> {
        match self {
            KindModel::Generic { operands, .. } => operands,
            KindModel::DclInput { operands, .. } => operands,
            KindModel::DclOutput { operands, .. } => operands,
            KindModel::DclResource { operands, .. } => operands,
            KindModel::DclSampler { operands, .. } => operands,
            KindModel::DclConstantBuffer { operands, .. } => operands,
            KindModel::DclUavTyped { operands, .. } => operands,
            KindModel::DclUavRaw { operands, .. } => operands,
            KindModel::DclUavStructured { operands, .. } => operands,
            KindModel::DclResourceRaw { operands, .. } => operands,
            KindModel::DclResourceStructured { operands, .. } => operands,
            KindModel::DclIndexRange { operands, .. } => operands,
            _ => Seq::empty(),
        }
    }
}

impl RegisterType {
    /// The variant that a raw value stands for.
    pub open spec fn of(v: u32) -> RegisterType {
        if v == 0 { RegisterType::Temp }
        else if v == 1 { RegisterType::Input }
        else if v == 2 { RegisterType::Output }
        else if v == 3 { RegisterType::IndexableTemp }
        else if v == 4 { RegisterType::Immediate32 }
        else if v == 5 { RegisterType::Immediate64 }
        else if v == 6 { RegisterType::Sampler }
        else if v == 7 { RegisterType::Resource }
        else if v == 8 { RegisterType::ConstantBuffer }
        else if v == 9 { RegisterType::ImmConstBuffer }
        else if v == 10 { RegisterType::Label }
        else if v == 11 { RegisterType::InputPrimitiveID }
        else if v == 12 { RegisterType::OutputDepth }
        else if v == 13 { RegisterType::Null }
        else if v == 14 { RegisterType::Rasterizer }
        else if v == 15 { RegisterType::OutputCoverageMask }
        else if v == 16 { RegisterType::Stream }
        else if v == 17 { RegisterType::FunctionBody }
        else if v == 18 { RegisterType::FunctionTable }
        else if v == 19 { RegisterType::Interface }
        else if v == 20 { RegisterType::FunctionInput }
        else if v == 21 { RegisterType::FunctionOutput }
        else if v == 22 { RegisterType::OutputControlPointID }
        else if v == 23 { RegisterType::ForkInstanceID }
        else if v == 24 { RegisterType::JoinInstanceID }
        else if v == 25 { RegisterType::InputControlPoint }
        else if v == 26 { RegisterType::OutputControlPoint }
        else if v == 27 { RegisterType::PatchConstant }
        else if v == 28 { RegisterType::DomainLocation }
        else if v == 29 { RegisterType::ThisPointer }
        else if v == 30 { RegisterType::Uav }
        else if v == 31 { RegisterType::ThreadGroupSharedMemory }
        else if v == 32 { RegisterType::ThreadID }
        else if v == 33 { RegisterType::ThreadGroupID }
        else if v == 34 { RegisterType::ThreadIDInGroup }
        else if v == 35 { RegisterType::Coverage }
        else if v == 36 { RegisterType::ThreadIDInGroupFlattened }
        else if v == 37 { RegisterType::GsInstanceID }
        else if v == 38 { RegisterType::OutputDepthGE }
        else if v == 39 { RegisterType::OutputDepthLE }
        else if v == 40 { RegisterType::CycleCounter }
        else { RegisterType::Unknown(v) }
    }

    /// The raw value of the variant.
    pub open spec fn raw(self) -> u32 {
        match self {
            RegisterType::Temp => 0,
            RegisterType::Input => 1,
            RegisterType::Output => 2,
            RegisterType::IndexableTemp => 3,
            RegisterType::Immediate32 => 4,
            RegisterType::Immediate64 => 5,
            RegisterType::Sampler => 6,
            RegisterType::Resource => 7,
            RegisterType::ConstantBuffer => 8,
            RegisterType::ImmConstBuffer => 9,
            RegisterType::Label => 10,
            RegisterType::InputPrimitiveID => 11,
            RegisterType::OutputDepth => 12,
            RegisterType::Null => 13,
            RegisterType::Rasterizer => 14,
            RegisterType::OutputCoverageMask => 15,
            RegisterType::Stream => 16,
            RegisterType::FunctionBody => 17,
            RegisterType::FunctionTable => 18,
            RegisterType::Interface => 19,
            RegisterType::FunctionInput => 20,
            RegisterType::FunctionOutput => 21,
            RegisterType::OutputControlPointID => 22,
            RegisterType::ForkInstanceID => 23,
            RegisterType::JoinInstanceID => 24,
            RegisterType::InputControlPoint => 25,
            RegisterType::OutputControlPoint => 26,
            RegisterType::PatchConstant => 27,
            RegisterType::DomainLocation => 28,
            RegisterType::ThisPointer => 29,
            RegisterType::Uav => 30,
            RegisterType::ThreadGroupSharedMemory => 31,
            RegisterType::ThreadID => 32,
            RegisterType::ThreadGroupID => 33,
            RegisterType::ThreadIDInGroup => 34,
            RegisterType::Coverage => 35,
            RegisterType::ThreadIDInGroupFlattened => 36,
            RegisterType::GsInstanceID => 37,
            RegisterType::OutputDepthGE => 38,
            RegisterType::OutputDepthLE => 39,
            RegisterType::CycleCounter => 40,
            RegisterType::Unknown(v) => v,
        }
    }

    /// The text that the variant is listed with.
    pub open spec fn prefix_text(self) -> Seq<char> {
        match self {
            RegisterType::Temp => "r"@,
            RegisterType::Input => "v"@,
            RegisterType::Output => "o"@,
            RegisterType::IndexableTemp => "x"@,
            RegisterType::Immediate32 => "l"@,
            RegisterType::Immediate64 => "d"@,
            RegisterType::Sampler => "s"@,
            RegisterType::Resource => "t"@,
            RegisterType::ConstantBuffer => "cb"@,
            RegisterType::ImmConstBuffer => "icb"@,
            RegisterType::Label => "label"@,
            RegisterType::InputPrimitiveID => "vPrim"@,
            RegisterType::OutputDepth => "oDepth"@,
            RegisterType::Null => "null"@,
            RegisterType::Rasterizer => "rasterizer"@,
            RegisterType::OutputCoverageMask => "oMask"@,
            RegisterType::Stream => "stream"@,
            RegisterType::FunctionBody => "function_body"@,
            RegisterType::FunctionTable => "function_table"@,
            RegisterType::Interface => "interface"@,
            RegisterType::FunctionInput => "function_input"@,
            RegisterType::FunctionOutput => "function_output"@,
            RegisterType::OutputControlPointID => "vOutputControlPointID"@,
            RegisterType::ForkInstanceID => "vForkInstanceID"@,
            RegisterType::JoinInstanceID => "vJoinInstanceID"@,
            RegisterType::InputControlPoint => "vicp"@,
            RegisterType::OutputControlPoint => "vocp"@,
            RegisterType::PatchConstant => "vpc"@,
            RegisterType::DomainLocation => "vDomain"@,
            RegisterType::ThisPointer => "thisPointer"@,
            RegisterType::Uav => "u"@,
            RegisterType::ThreadGroupSharedMemory => "g"@,
            RegisterType::ThreadID => "vThreadID"@,
            RegisterType::ThreadGroupID => "vThreadGroupID"@,
            RegisterType::ThreadIDInGroup => "vThreadIDInGroup"@,
            RegisterType::Coverage => "vCoverage"@,
            RegisterType::ThreadIDInGroupFlattened => "vThreadIDInGroupFlattened"@,
            RegisterType::GsInstanceID => "vGSInstanceID"@,
            RegisterType::OutputDepthGE => "oDepthGE"@,
            RegisterType::OutputDepthLE => "oDepthLE"@,
            RegisterType::CycleCounter => "vCycleCounter"@,
            RegisterType::Unknown(_) => "?reg"@,
        }
    }

    /// Converts a raw value to the variant that it stands for.
    pub fn from_u32(v: u32) -> (r: Self)
        ensures
            r == RegisterType::of(v),
    {
        match v {
            0 => RegisterType::Temp,
            1 => RegisterType::Input,
            2 => RegisterType::Output,
            3 => RegisterType::IndexableTemp,
            4 => RegisterType::Immediate32,
            5 => RegisterType::Immediate64,
            6 => RegisterType::Sampler,
            7 => RegisterType::Resource,
            8 => RegisterType::ConstantBuffer,
            9 => RegisterType::ImmConstBuffer,
            10 => RegisterType::Label,
            11 => RegisterType::InputPrimitiveID,
            12 => RegisterType::OutputDepth,
            13 => RegisterType::Null,
            14 => RegisterType::Rasterizer,
            15 => RegisterType::OutputCoverageMask,
            16 => RegisterType::Stream,
            17 => RegisterType::FunctionBody,
            18 => RegisterType::FunctionTable,
            19 => RegisterType::Interface,
            20 => RegisterType::FunctionInput,
            21 => RegisterType::FunctionOutput,
            22 => RegisterType::OutputControlPointID,
            23 => RegisterType::ForkInstanceID,
            24 => RegisterType::JoinInstanceID,
            25 => RegisterType::InputControlPoint,
            26 => RegisterType::OutputControlPoint,
            27 => RegisterType::PatchConstant,
            28 => RegisterType::DomainLocation,
            29 => RegisterType::ThisPointer,
            30 => RegisterType::Uav,
            31 => RegisterType::ThreadGroupSharedMemory,
            32 => RegisterType::ThreadID,
            33 => RegisterType::ThreadGroupID,
            34 => RegisterType::ThreadIDInGroup,
            35 => RegisterType::Coverage,
            36 => RegisterType::ThreadIDInGroupFlattened,
            37 => RegisterType::GsInstanceID,
            38 => RegisterType::OutputDepthGE,
            39 => RegisterType::OutputDepthLE,
            40 => RegisterType::CycleCounter,
            _ => RegisterType::Unknown(v),
        }
    }

    /// Converts back to the raw value.
    pub fn to_u32(&self) -> (r: u32)
        ensures
            r == self.raw(),
    {
        match self {
            RegisterType::Temp => 0,
            RegisterType::Input => 1,
            RegisterType::Output => 2,
            RegisterType::IndexableTemp => 3,
            RegisterType::Immediate32 => 4,
            RegisterType::Immediate64 => 5,
            RegisterType::Sampler => 6,
            RegisterType::Resource => 7,
            RegisterType::ConstantBuffer => 8,
            RegisterType::ImmConstBuffer => 9,
            RegisterType::Label => 10,
            RegisterType::InputPrimitiveID => 11,
            RegisterType::OutputDepth => 12,
            RegisterType::Null => 13,
            RegisterType::Rasterizer => 14,
            RegisterType::OutputCoverageMask => 15,
            RegisterType::Stream => 16,
            RegisterType::FunctionBody => 17,
            RegisterType::FunctionTable => 18,
            RegisterType::Interface => 19,
            RegisterType::FunctionInput => 20,
            RegisterType::FunctionOutput => 21,
            RegisterType::OutputControlPointID => 22,
            RegisterType::ForkInstanceID => 23,
            RegisterType::JoinInstanceID => 24,
            RegisterType::InputControlPoint => 25,
            RegisterType::OutputControlPoint => 26,
            RegisterType::PatchConstant => 27,
            RegisterType::DomainLocation => 28,
            RegisterType::ThisPointer => 29,
            RegisterType::Uav => 30,
            RegisterType::ThreadGroupSharedMemory => 31,
            RegisterType::ThreadID => 32,
            RegisterType::ThreadGroupID => 33,
            RegisterType::ThreadIDInGroup => 34,
            RegisterType::Coverage => 35,
            RegisterType::ThreadIDInGroupFlattened => 36,
            RegisterType::GsInstanceID => 37,
            RegisterType::OutputDepthGE => 38,
            RegisterType::OutputDepthLE => 39,
            RegisterType::CycleCounter => 40,
            RegisterType::Unknown(v) => *v,
        }
    }

    /// The text that the variant is listed with.
    pub fn prefix(&self) -> (r: &'static str)
        ensures
            r@ == self.prefix_text(),
    {
        match self {
            RegisterType::Temp => "r",
            RegisterType::Input => "v",
            RegisterType::Output => "o",
            RegisterType::IndexableTemp => "x",
            RegisterType::Immediate32 => "l",
            RegisterType::Immediate64 => "d",
            RegisterType::Sampler => "s",
            RegisterType::Resource => "t",
            RegisterType::ConstantBuffer => "cb",
            RegisterType::ImmConstBuffer => "icb",
            RegisterType::Label => "label",
            RegisterType::InputPrimitiveID => "vPrim",
            RegisterType::OutputDepth => "oDepth",
            RegisterType::Null => "null",
            RegisterType::Rasterizer => "rasterizer",
            RegisterType::OutputCoverageMask => "oMask",
            RegisterType::Stream => "stream",
            RegisterType::FunctionBody => "function_body",
            RegisterType::FunctionTable => "function_table",
            RegisterType::Interface => "interface",
            RegisterType::FunctionInput => "function_input",
            RegisterType::FunctionOutput => "function_output",
            RegisterType::OutputControlPointID => "vOutputControlPointID",
            RegisterType::ForkInstanceID => "vForkInstanceID",
            RegisterType::JoinInstanceID => "vJoinInstanceID",
            RegisterType::InputControlPoint => "vicp",
            RegisterType::OutputControlPoint => "vocp",
            RegisterType::PatchConstant => "vpc",
            RegisterType::DomainLocation => "vDomain",
            RegisterType::ThisPointer => "thisPointer",
            RegisterType::Uav => "u",
            RegisterType::ThreadGroupSharedMemory => "g",
            RegisterType::ThreadID => "vThreadID",
            RegisterType::ThreadGroupID => "vThreadGroupID",
            RegisterType::ThreadIDInGroup => "vThreadIDInGroup",
            RegisterType::Coverage => "vCoverage",
            RegisterType::ThreadIDInGroupFlattened => "vThreadIDInGroupFlattened",
            RegisterType::GsInstanceID => "vGSInstanceID",
            RegisterType::OutputDepthGE => "oDepthGE",
            RegisterType::OutputDepthLE => "oDepthLE",
            RegisterType::CycleCounter => "vCycleCounter",
            RegisterType::Unknown(_) => "?reg",
        }
    }
}

/// Every raw value comes back out of the variant that it stands for.
pub proof fn law_registertype_keeps_raw(v: u32)
    ensures
        RegisterType::of(v).raw() == v,
{
}

impl ReturnType {
    /// The variant that a raw value stands for.
    pub open spec fn of(v: u32) -> ReturnType {
        if v == 1 { ReturnType::Unorm }
        else if v == 2 { ReturnType::Snorm }
        else if v == 3 { ReturnType::Sint }
        else if v == 4 { ReturnType::Uint }
        else if v == 5 { ReturnType::Float }
        else if v == 6 { ReturnType::Mixed }
        else if v == 7 { ReturnType::Double }
        else if v == 8 { ReturnType::Continued }
        else if v == 9 { ReturnType::Unused }
        else { ReturnType::Unknown(v) }
    }

    /// The raw value of the variant.
    pub open spec fn raw(self) -> u32 {
        match self {
            ReturnType::Unorm => 1,
            ReturnType::Snorm => 2,
            ReturnType::Sint => 3,
            ReturnType::Uint => 4,
            ReturnType::Float => 5,
            ReturnType::Mixed => 6,
            ReturnType::Double => 7,
            ReturnType::Continued => 8,
            ReturnType::Unused => 9,
            ReturnType::Unknown(v) => v,
        }
    }

    /// The text that the variant is listed with.
    pub open spec fn name_text(self) -> Seq<char> {
        match self {
            ReturnType::Unorm => "unorm"@,
            ReturnType::Snorm => "snorm"@,
            ReturnType::Sint => "sint"@,
            ReturnType::Uint => "uint"@,
            ReturnType::Float => "float"@,
            ReturnType::Mixed => "mixed"@,
            ReturnType::Double => "double"@,
            ReturnType::Continued => "continued"@,
            ReturnType::Unused => "unused"@,
            ReturnType::Unknown(_) => "?"@,
        }
    }

    /// Converts a raw value to the variant that it stands for.
    pub fn from_u32(v: u32) -> (r: Self)
        ensures
            r == ReturnType::of(v),
    {
        match v {
            1 => ReturnType::Unorm,
            2 => ReturnType::Snorm,
            3 => ReturnType::Sint,
            4 => ReturnType::Uint,
            5 => ReturnType::Float,
            6 => ReturnType::Mixed,
            7 => ReturnType::Double,
            8 => ReturnType::Continued,
            9 => ReturnType::Unused,
            _ => ReturnType::Unknown(v),
        }
    }

    /// Converts back to the raw value.
    pub fn to_u32(&self) -> (r: u32)
        ensures
            r == self.raw(),
    {
        match self {
            ReturnType::Unorm => 1,
            ReturnType::Snorm => 2,
            ReturnType::Sint => 3,
            ReturnType::Uint => 4,
            ReturnType::Float => 5,
            ReturnType::Mixed => 6,
            ReturnType::Double => 7,
            ReturnType::Continued => 8,
            ReturnType::Unused => 9,
            ReturnType::Unknown(v) => *v,
        }
    }

    /// The text that the variant is listed with.
    pub fn name(&self) -> (r: &'static str)
        ensures
            r@ == self.name_text(),
    {
        match self {
            ReturnType::Unorm => "unorm",
            ReturnType::Snorm => "snorm",
            ReturnType::Sint => "sint",
            ReturnType::Uint => "uint",
            ReturnType::Float => "float",
            ReturnType::Mixed => "mixed",
            ReturnType::Double => "double",
            ReturnType::Continued => "continued",
            ReturnType::Unused => "unused",
            ReturnType::Unknown(_) => "?",
        }
    }
}

/// Every raw value comes back out of the variant that it stands for.
pub proof fn law_returntype_keeps_raw(v: u32)
    ensures
        ReturnType::of(v).raw() == v,
{
}

impl CustomDataType {
    /// The variant that a raw value stands for.
    pub open spec fn of(v: u32) -> CustomDataType {
        if v == 0 { CustomDataType::Comment }
        else if v == 1 { CustomDataType::DebugInfo }
        else if v == 2 { CustomDataType::Opaque }
        else if v == 3 { CustomDataType::ImmediateConstantBuffer }
        else { CustomDataType::Other(v) }
    }

    /// The raw value of the variant.
    pub open spec fn raw(self) -> u32 {
        match self {
            CustomDataType::Comment => 0,
            CustomDataType::DebugInfo => 1,
            CustomDataType::Opaque => 2,
            CustomDataType::ImmediateConstantBuffer => 3,
            CustomDataType::Other(v) => v,
        }
    }

    /// Converts a raw value to the variant that it stands for.
    pub fn from_u32(v: u32) -> (r: Self)
        ensures
            r == CustomDataType::of(v),
    {
        match v {
            0 => CustomDataType::Comment,
            1 => CustomDataType::DebugInfo,
            2 => CustomDataType::Opaque,
            3 => CustomDataType::ImmediateConstantBuffer,
            _ => CustomDataType::Other(v),
        }
    }

    /// Converts back to the raw value.
    pub fn to_u32(&self) -> (r: u32)
        ensures
            r == self.raw(),
    {
        match self {
            CustomDataType::Comment => 0,
            CustomDataType::DebugInfo => 1,
            CustomDataType::Opaque => 2,
            CustomDataType::ImmediateConstantBuffer => 3,
            CustomDataType::Other(v) => *v,
        }
    }
}

impl GsPrimitive {
    /// The variant that a raw field stands for.
    pub open spec fn of(v: u32) -> GsPrimitive {
        if v == 0 { GsPrimitive::Undefined }
        else if v == 1 { GsPrimitive::Point }
        else if v == 2 { GsPrimitive::Line }
        else if v == 3 { GsPrimitive::Triangle }
        else if v == 6 { GsPrimitive::LineAdj }
        else if v == 7 { GsPrimitive::TriangleAdj }
        else if 8 <= v <= 39 { GsPrimitive::ControlPointPatch((v - 7) as u8) }
        else { GsPrimitive::Undefined }
    }

    /// The raw field of the variant.
    pub open spec fn raw(self) -> u32 {
        match self {
            GsPrimitive::Undefined => 0,
            GsPrimitive::Point => 1,
            GsPrimitive::Line => 2,
            GsPrimitive::Triangle => 3,
            GsPrimitive::LineAdj => 6,
            GsPrimitive::TriangleAdj => 7,
            GsPrimitive::ControlPointPatch(n) => (n + 7) as u32,
        }
    }

    /// The name of the variant in a listing.
    pub open spec fn name_text(self) -> Seq<char> {
        match self {
            GsPrimitive::Undefined => "undefined"@,
            GsPrimitive::Point => "point"@,
            GsPrimitive::Line => "line"@,
            GsPrimitive::Triangle => "triangle"@,
            GsPrimitive::LineAdj => "lineAdj"@,
            GsPrimitive::TriangleAdj => "triangleAdj"@,
            GsPrimitive::ControlPointPatch(_) => "patchlist"@,
        }
    }

    /// Decode from the raw field of an instruction's first token.
    pub fn from_raw(v: u32) -> (r: Self)
        ensures
            r == GsPrimitive::of(v),
    {
        match v {
            0 => GsPrimitive::Undefined,
            1 => GsPrimitive::Point,
            2 => GsPrimitive::Line,
            3 => GsPrimitive::Triangle,
            6 => GsPrimitive::LineAdj,
            7 => GsPrimitive::TriangleAdj,
            8..=39 => GsPrimitive::ControlPointPatch((v - 7) as u8),
            _ => GsPrimitive::Undefined,
        }
    }

    /// Encode back to the raw field.
    pub fn to_raw(self) -> (r: u32)
        ensures
            r == self.raw(),
    {
        match self {
            GsPrimitive::Undefined => 0,
            GsPrimitive::Point => 1,
            GsPrimitive::Line => 2,
            GsPrimitive::Triangle => 3,
            GsPrimitive::LineAdj => 6,
            GsPrimitive::TriangleAdj => 7,
            GsPrimitive::ControlPointPatch(n) => n as u32 + 7,
        }
    }

    /// The name in a listing.
    pub fn name(self) -> (r: &'static str)
        ensures
            r@ == self.name_text(),
    {
        match self {
            GsPrimitive::Undefined => "undefined",
            GsPrimitive::Point => "point",
            GsPrimitive::Line => "line",
            GsPrimitive::Triangle => "triangle",
            GsPrimitive::LineAdj => "lineAdj",
            GsPrimitive::TriangleAdj => "triangleAdj",
            GsPrimitive::ControlPointPatch(_) => "patchlist",
        }
    }
}

impl GsOutputTopology {
    /// The variant that a raw field stands for.
    pub open spec fn of(v: u32) -> GsOutputTopology {
        if v == 1 { GsOutputTopology::PointList }
        else if v == 2 { GsOutputTopology::LineList }
        else if v == 3 { GsOutputTopology::LineStrip }
        else if v == 4 { GsOutputTopology::TriangleList }
        else if v == 5 { GsOutputTopology::TriangleStrip }
        else if v == 10 { GsOutputTopology::LineListAdj }
        else if v == 11 { GsOutputTopology::LineStripAdj }
        else if v == 12 { GsOutputTopology::TriangleListAdj }
        else if v == 13 { GsOutputTopology::TriangleStripAdj }
        else { GsOutputTopology::Undefined }
    }

    /// The raw field of the variant.
    pub open spec fn raw(self) -> u32 {
        match self {
            GsOutputTopology::Undefined => 0,
            GsOutputTopology::PointList => 1,
            GsOutputTopology::LineList => 2,
            GsOutputTopology::LineStrip => 3,
            GsOutputTopology::TriangleList => 4,
            GsOutputTopology::TriangleStrip => 5,
            GsOutputTopology::LineListAdj => 10,
            GsOutputTopology::LineStripAdj => 11,
            GsOutputTopology::TriangleListAdj => 12,
            GsOutputTopology::TriangleStripAdj => 13,
        }
    }

    /// The name of the variant in a listing.
    pub open spec fn name_text(self) -> Seq<char> {
        match self {
            GsOutputTopology::Undefined => "undefined"@,
            GsOutputTopology::PointList => "pointlist"@,
            GsOutputTopology::LineList => "linelist"@,
            GsOutputTopology::LineStrip => "linestrip"@,
            GsOutputTopology::TriangleList => "trianglelist"@,
            GsOutputTopology::TriangleStrip => "trianglestrip"@,
            GsOutputTopology::LineListAdj => "linelistAdj"@,
            GsOutputTopology::LineStripAdj => "linestripAdj"@,
            GsOutputTopology::TriangleListAdj => "trianglelistAdj"@,
            GsOutputTopology::TriangleStripAdj => "trianglestripAdj"@,
        }
    }

    /// Decode from the raw field of an instruction's first token.
    pub fn from_raw(v: u32) -> (r: Self)
        ensures
            r == GsOutputTopology::of(v),
    {
        match v {
            1 => GsOutputTopology::PointList,
            2 => GsOutputTopology::LineList,
            3 => GsOutputTopology::LineStrip,
            4 => GsOutputTopology::TriangleList,
            5 => GsOutputTopology::TriangleStrip,
            10 => GsOutputTopology::LineListAdj,
            11 => GsOutputTopology::LineStripAdj,
            12 => GsOutputTopology::TriangleListAdj,
            13 => GsOutputTopology::TriangleStripAdj,
            _ => GsOutputTopology::Undefined,
        }
    }

    /// Encode back to the raw field.
    pub fn to_raw(self) -> (r: u32)
        ensures
            r == self.raw(),
    {
        match self {
            GsOutputTopology::Undefined => 0,
            GsOutputTopology::PointList => 1,
            GsOutputTopology::LineList => 2,
            GsOutputTopology::LineStrip => 3,
            GsOutputTopology::TriangleList => 4,
            GsOutputTopology::TriangleStrip => 5,
            GsOutputTopology::LineListAdj => 10,
            GsOutputTopology::LineStripAdj => 11,
            GsOutputTopology::TriangleListAdj => 12,
            GsOutputTopology::TriangleStripAdj => 13,
        }
    }

    /// The name in a listing.
    pub fn name(self) -> (r: &'static str)
        ensures
            r@ == self.name_text(),
    {
        match self {
            GsOutputTopology::Undefined => "undefined",
            GsOutputTopology::PointList => "pointlist",
            GsOutputTopology::LineList => "linelist",
            GsOutputTopology::LineStrip => "linestrip",
            GsOutputTopology::TriangleList => "trianglelist",
            GsOutputTopology::TriangleStrip => "trianglestrip",
            GsOutputTopology::LineListAdj => "linelistAdj",
            GsOutputTopology::LineStripAdj => "linestripAdj",
            GsOutputTopology::TriangleListAdj => "trianglelistAdj",
            GsOutputTopology::TriangleStripAdj => "trianglestripAdj",
        }
    }
}

/// A primitive that a raw field can stand for comes back out of its raw field.
pub proof fn law_gs_primitive_comes_back(p: GsPrimitive)
    requires
        p matches GsPrimitive::ControlPointPatch(n) ==> 1 <= n <= 32,
    ensures
        GsPrimitive::of(p.raw()) == p,
{
}

/// A topology comes back out of its raw field.
pub proof fn law_gs_topology_comes_back(t: GsOutputTopology)
    ensures
        GsOutputTopology::of(t.raw()) == t,
{
}

impl ComponentSelect {
    /// The component count of an operand token's bits 0 and 1.
    pub open spec fn count(self) -> u32 {
        match self {
            ComponentSelect::ZeroComponent => 0,
            ComponentSelect::OneComponent => 1,
            _ => 2,
        }
    }

    /// The component count of an operand token's bits 0 and 1.
    pub fn num_components(&self) -> (r: u32)
        ensures
            r == self.count(),
    {
        match self {
            ComponentSelect::ZeroComponent => 0,
            ComponentSelect::OneComponent => 1,
            _ => 2,
        }
    }
}

/// The name of a system value.
pub open spec fn system_value_text(val: u32) -> Seq<char> {
    if val == 0 { "undefined"@ }
    else if val == 1 { "position"@ }
    else if val == 2 { "clip_distance"@ }
    else if val == 3 { "cull_distance"@ }
    else if val == 4 { "render_target_array_index"@ }
    else if val == 5 { "viewport_array_index"@ }
    else if val == 6 { "vertex_id"@ }
    else if val == 7 { "primitive_id"@ }
    else if val == 8 { "instance_id"@ }
    else if val == 9 { "is_front_face"@ }
    else if val == 10 { "sample_index"@ }
    else if val == 11 { "finalQuadUeq0EdgeTessFactor"@ }
    else if val == 12 { "finalQuadVeq0EdgeTessFactor"@ }
    else if val == 13 { "finalQuadUeq1EdgeTessFactor"@ }
    else if val == 14 { "finalQuadVeq1EdgeTessFactor"@ }
    else if val == 15 { "finalQuadUInsideTessFactor"@ }
    else if val == 16 { "finalQuadVInsideTessFactor"@ }
    else if val == 17 { "finalTriUeq0EdgeTessFactor"@ }
    else if val == 18 { "finalTriVeq0EdgeTessFactor"@ }
    else if val == 19 { "finalTriWeq0EdgeTessFactor"@ }
    else if val == 20 { "finalTriInsideTessFactor"@ }
    else if val == 21 { "finalLineDetailTessFactor"@ }
    else if val == 22 { "finalLineDensityTessFactor"@ }
    else if val == 23 { "target"@ }
    else if val == 24 { "depth"@ }
    else if val == 25 { "coverage"@ }
    else if val == 26 { "depth_greater_equal"@ }
    else if val == 27 { "depth_less_equal"@ }
    else if val == 64 { "stencil_ref"@ }
    else if val == 65 { "inner_coverage"@ }
    else { "unknown_sv"@ }
}

/// The name of a system value (`D3D10_SB_NAME`, `D3D11_SB_NAME`).
pub fn system_value_name(val: u32) -> (r: &'static str)
    ensures
        r@ == system_value_text(val),
{
    match val {
        0 => "undefined",
        1 => "position",
        2 => "clip_distance",
        3 => "cull_distance",
        4 => "render_target_array_index",
        5 => "viewport_array_index",
        6 => "vertex_id",
        7 => "primitive_id",
        8 => "instance_id",
        9 => "is_front_face",
        10 => "sample_index",
        11 => "finalQuadUeq0EdgeTessFactor",
        12 => "finalQuadVeq0EdgeTessFactor",
        13 => "finalQuadUeq1EdgeTessFactor",
        14 => "finalQuadVeq1EdgeTessFactor",
        15 => "finalQuadUInsideTessFactor",
        16 => "finalQuadVInsideTessFactor",
        17 => "finalTriUeq0EdgeTessFactor",
        18 => "finalTriVeq0EdgeTessFactor",
        19 => "finalTriWeq0EdgeTessFactor",
        20 => "finalTriInsideTessFactor",
        21 => "finalLineDetailTessFactor",
        22 => "finalLineDensityTessFactor",
        23 => "target",
        24 => "depth",
        25 => "coverage",
        26 => "depth_greater_equal",
        27 => "depth_less_equal",
        64 => "stencil_ref",
        65 => "inner_coverage",
        _ => "unknown_sv",
    }
}

} // verus!
