//! SM4/SM5 instruction opcodes.
use vstd::prelude::*;

verus! {

/// Shader bytecode opcode (`D3D10_SB_OPCODE_TYPE`), D3D10 to D3D11.3.
///
/// A value that names no opcode is kept as `Unknown`.
#[derive(Debug, Clone, Copy, PartialEq, Eq, Structural)]
#[allow(non_camel_case_types)]
pub enum Opcode {
    // D3D10 ALU / flow-control (0–87)
    /// Floating-point add: `dest = src0 + src1`.
    Add,
    /// Bitwise AND: `dest = src0 & src1`.
    And,
    /// Break out of a loop.
    Break,
    /// Conditional break.
    Breakc,
    /// Call a subroutine label.
    Call,
    /// Conditional call.
    Callc,
    /// Switch-case label.
    Case,
    /// Continue to the next loop iteration.
    Continue,
    /// Conditional continue.
    Continuec,
    /// Geometry shader: cut the current primitive strip.
    Cut,
    /// Switch-default label.
    Default,
    /// Partial derivative with respect to screen-space X.
    Deriv_rtx,
    /// Partial derivative with respect to screen-space Y.
    Deriv_rty,
    /// Conditionally discard the current pixel.
    Discard,
    /// Floating-point divide: `dest = src0 / src1`.
    Div,
    /// Two-component dot product.
    Dp2,
    /// Three-component dot product.
    Dp3,
    /// Four-component dot product.
    Dp4,
    /// Else branch of an if/else block.
    Else,
    /// Geometry shader: emit a vertex.
    Emit,
    /// Geometry shader: emit a vertex then cut the strip.
    EmitThenCut,
    /// End of an if/else block.
    EndIf,
    /// End of a loop block.
    EndLoop,
    /// End of a switch block.
    EndSwitch,
    /// Floating-point equality comparison.
    Eq,
    /// Base-2 exponent: `dest = 2^src`.
    Exp,
    /// Fractional part: `dest = frac(src)`.
    Frc,
    /// Float to signed integer conversion.
    Ftoi,
    /// Float to unsigned integer conversion.
    Ftou,
    /// Floating-point greater-or-equal comparison.
    Ge,
    /// Signed integer add.
    Iadd,
    /// Conditional branch.
    If,
    /// Signed integer equality comparison.
    IEq,
    /// Signed integer greater-or-equal comparison.
    IGe,
    /// Signed integer less-than comparison.
    ILt,
    /// Signed integer multiply-add.
    IMad,
    /// Signed integer maximum.
    IMax,
    /// Signed integer minimum.
    IMin,
    /// Signed integer multiply (produces hi and lo results).
    IMul,
    /// Signed integer not-equal comparison.
    INe,
    /// Signed integer negate.
    INeg,
    /// Integer shift left.
    Ishl,
    /// Signed integer arithmetic shift right.
    Ishr,
    /// Signed integer to float conversion.
    Itof,
    /// Subroutine label definition.
    Label,
    /// Load from a resource (no sampling).
    Ld,
    /// Load from a multi-sampled resource.
    LdMs,
    /// Base-2 logarithm: `dest = log2(src)`.
    Log,
    /// Begin a loop block.
    Loop,
    /// Floating-point less-than comparison.
    Lt,
    /// Floating-point multiply-add: `dest = src0 * src1 + src2`.
    Mad,
    /// Floating-point minimum.
    Min,
    /// Floating-point maximum.
    Max,
    /// Custom data block (e.g. immediate constant buffer).
    CustomData,
    /// Move (copy) a value.
    Mov,
    /// Conditional move: `dest = src0 ? src1 : src2`.
    Movc,
    /// Floating-point multiply.
    Mul,
    /// Floating-point not-equal comparison.
    Ne,
    /// No operation.
    Nop,
    /// Bitwise NOT.
    Not,
    /// Bitwise OR.
    Or,
    /// Query resource dimensions / element count.
    Resinfo,
    /// Return from the current shader or subroutine.
    Ret,
    /// Conditional return.
    Retc,
    /// Round to nearest even.
    Round_ne,
    /// Round towards negative infinity (floor).
    Round_ni,
    /// Round towards positive infinity (ceil).
    Round_pi,
    /// Round towards zero (truncate).
    Round_z,
    /// Reciprocal square root: `dest = 1 / sqrt(src)`.
    Rsq,
    /// Sample a texture.
    Sample,
    /// Sample with comparison (shadow sampling).
    SampleC,
    /// Sample-compare at LOD zero.
    SampleCLz,
    /// Sample at an explicit LOD.
    SampleL,
    /// Sample with explicit derivatives.
    SampleD,
    /// Sample with a bias applied to the mip level.
    SampleB,
    /// Floating-point square root.
    Sqrt,
    /// Begin a switch block.
    Switch,
    /// Simultaneous sine and cosine.
    Sincos,
    /// Unsigned integer divide (quotient and remainder).
    UDiv,
    /// Unsigned integer less-than comparison.
    ULt,
    /// Unsigned integer greater-or-equal comparison.
    UGe,
    /// Unsigned integer multiply (produces hi and lo results).
    UMul,
    /// Unsigned integer multiply-add.
    UMad,
    /// Unsigned integer maximum.
    UMax,
    /// Unsigned integer minimum.
    UMin,
    /// Unsigned integer (logical) shift right.
    Ushr,
    /// Unsigned integer to float conversion.
    Utof,
    /// Bitwise XOR.
    Xor,
    // Declarations (88–106)
    /// Declare a shader resource (SRV).
    DclResource,
    /// Declare a constant buffer binding.
    DclConstantBuffer,
    /// Declare a sampler state.
    DclSampler,
    /// Declare an index range for signature elements.
    DclIndexRange,
    /// Declare GS output primitive topology.
    DclGsOutputPrimitiveTopology,
    /// Declare GS input primitive type.
    DclGsInputPrimitive,
    /// Declare the maximum output vertex count for a GS.
    DclMaxOutputVertexCount,
    /// Declare a generic shader input register.
    DclInput,
    /// Declare a system-generated value input.
    DclInputSgv,
    /// Declare a system-interpreted value input.
    DclInputSiv,
    /// Declare a pixel shader input with interpolation mode.
    DclInputPs,
    /// Declare a PS system-generated value input.
    DclInputPsSgv,
    /// Declare a PS system-interpreted value input.
    DclInputPsSiv,
    /// Declare a shader output register.
    DclOutput,
    /// Declare a system-generated value output.
    DclOutputSgv,
    /// Declare a system-interpreted value output.
    DclOutputSiv,
    /// Declare the number of temporary registers.
    DclTemps,
    /// Declare an indexable temporary register array.
    DclIndexableTemp,
    /// Declare global shader flags (refactoring, doubles, etc.).
    DclGlobalFlags,
    // DX10.1 (108–111)
    /// Query texture LOD.
    Lod,
    /// Four-sample gather from a texture.
    Gather4,
    /// Query multisample sample position.
    SamplePos,
    /// Query multisample sample info.
    SampleInfo,
    // DX11 HS phases (113–116)
    /// Hull shader declarations phase marker.
    HsDecls,
    /// Hull shader control-point phase marker.
    HsControlPointPhase,
    /// Hull shader fork phase marker.
    HsForkPhase,
    /// Hull shader join phase marker.
    HsJoinPhase,
    // DX11 stream ops (117–120)
    /// GS: emit a vertex to a specific stream.
    EmitStream,
    /// GS: cut the primitive strip on a specific stream.
    CutStream,
    /// GS: emit then cut on a specific stream.
    EmitThenCutStream,
    /// Call through a function-pointer interface.
    InterfaceCall,
    // DX11 SM5 instructions (121–142)
    /// Query buffer element count / stride.
    BufInfo,
    /// Coarse partial derivative with respect to X.
    Deriv_rtx_coarse,
    /// Fine partial derivative with respect to X.
    Deriv_rtx_fine,
    /// Coarse partial derivative with respect to Y.
    Deriv_rty_coarse,
    /// Fine partial derivative with respect to Y.
    Deriv_rty_fine,
    /// Four-sample gather with comparison.
    Gather4C,
    /// Four-sample gather with programmable offset.
    Gather4Po,
    /// Four-sample gather with programmable offset and comparison.
    Gather4PoC,
    /// Reciprocal: `dest = 1.0 / src`.
    Rcp,
    /// Convert 32-bit float to 16-bit float (stored in low 16 bits).
    F32tof16,
    /// Convert 16-bit float (in low 16 bits) to 32-bit float.
    F16tof32,
    /// Unsigned integer add with carry out.
    Uaddc,
    /// Unsigned integer subtract with borrow out.
    Usubb,
    /// Count the number of set bits (population count).
    Countbits,
    /// Find first set bit from MSB (unsigned).
    FirstbitHi,
    /// Find first set bit from LSB.
    FirstbitLo,
    /// Find first set bit from MSB (signed / sign bit aware).
    FirstbitShi,
    /// Unsigned bitfield extract.
    Ubfe,
    /// Signed bitfield extract.
    Ibfe,
    /// Bitfield insert.
    Bfi,
    /// Reverse all bits.
    Bfrev,
    /// Conditional swap of two source pairs.
    Swapc,
    // DX11 SM5 declarations (143–162)
    /// Declare a GS output stream.
    DclStream,
    /// Declare a function body for interface calls.
    DclFunctionBody,
    /// Declare a function table for interface dispatch.
    DclFunctionTable,
    /// Declare a class interface binding.
    DclInterface,
    /// Declare the HS input control-point count.
    DclInputControlPointCount,
    /// Declare the HS output control-point count.
    DclOutputControlPointCount,
    /// Declare the tessellation domain (tri, quad, isoline).
    DclTessDomain,
    /// Declare the tessellation partitioning mode.
    DclTessPartitioning,
    /// Declare the tessellation output primitive topology.
    DclTessOutputPrimitive,
    /// Declare the HS maximum tessellation factor.
    DclHsMaxTessFactor,
    /// Declare the HS fork-phase instance count.
    DclHsForkPhaseInstanceCount,
    /// Declare the HS join-phase instance count.
    DclHsJoinPhaseInstanceCount,
    /// Declare the compute shader thread group dimensions.
    DclThreadGroup,
    /// Declare a typed UAV binding.
    DclUnorderedAccessViewTyped,
    /// Declare a raw (byte-addressed) UAV.
    DclUnorderedAccessViewRaw,
    /// Declare a structured UAV.
    DclUnorderedAccessViewStructured,
    /// Declare raw thread-group shared memory.
    DclThreadGroupSharedMemoryRaw,
    /// Declare structured thread-group shared memory.
    DclThreadGroupSharedMemoryStructured,
    /// Declare a raw (byte-addressed) SRV.
    DclResourceRaw,
    /// Declare a structured SRV.
    DclResourceStructured,
    // DX11 SM5 UAV/structured ops (163–190)
    /// Load from a typed UAV.
    LdUavTyped,
    /// Store to a typed UAV.
    StoreUavTyped,
    /// Load from a raw (byte-addressed) buffer.
    LdRaw,
    /// Store to a raw (byte-addressed) buffer.
    StoreRaw,
    /// Load from a structured buffer.
    LdStructured,
    /// Store to a structured buffer.
    StoreStructured,
    /// Atomic bitwise AND on a UAV/TGSM element.
    AtomicAnd,
    /// Atomic bitwise OR on a UAV/TGSM element.
    AtomicOr,
    /// Atomic bitwise XOR on a UAV/TGSM element.
    AtomicXor,
    /// Atomic compare-and-store on a UAV/TGSM element.
    AtomicCmpStore,
    /// Atomic signed integer add on a UAV/TGSM element.
    AtomicIAdd,
    /// Atomic signed integer max on a UAV/TGSM element.
    AtomicIMax,
    /// Atomic signed integer min on a UAV/TGSM element.
    AtomicIMin,
    /// Atomic unsigned integer max on a UAV/TGSM element.
    AtomicUMax,
    /// Atomic unsigned integer min on a UAV/TGSM element.
    AtomicUMin,
    /// Allocate from an append/consume UAV counter.
    ImmAtomicAlloc,
    /// Consume from an append/consume UAV counter.
    ImmAtomicConsume,
    /// Immediate atomic signed integer add (returns original value).
    ImmAtomicIAdd,
    /// Immediate atomic bitwise AND (returns original value).
    ImmAtomicAnd,
    /// Immediate atomic bitwise OR (returns original value).
    ImmAtomicOr,
    /// Immediate atomic bitwise XOR (returns original value).
    ImmAtomicXor,
    /// Immediate atomic exchange (returns original value).
    ImmAtomicExch,
    /// Immediate atomic compare-exchange (returns original value).
    ImmAtomicCmpExch,
    /// Immediate atomic signed integer max (returns original value).
    ImmAtomicIMax,
    /// Immediate atomic signed integer min (returns original value).
    ImmAtomicIMin,
    /// Immediate atomic unsigned integer max (returns original value).
    ImmAtomicUMax,
    /// Immediate atomic unsigned integer min (returns original value).
    ImmAtomicUMin,
    /// Thread group memory barrier / sync.
    Sync,
    // DX11 double-precision (191–202)
    /// Double-precision add.
    Dadd,
    /// Double-precision maximum.
    Dmax,
    /// Double-precision minimum.
    Dmin,
    /// Double-precision multiply.
    Dmul,
    /// Double-precision equality comparison.
    Deq,
    /// Double-precision greater-or-equal comparison.
    Dge,
    /// Double-precision less-than comparison.
    Dlt,
    /// Double-precision not-equal comparison.
    Dne,
    /// Double-precision move.
    Dmov,
    /// Double-precision conditional move.
    Dmovc,
    /// Double to float conversion.
    Dtof,
    /// Float to double conversion.
    Ftod,
    // DX11 eval (203–206)
    /// Evaluate an input attribute at a snapped pixel offset.
    Eval_snapped,
    /// Evaluate an input attribute at a specific sample index.
    Eval_sampleIndex,
    /// Evaluate an input attribute at the pixel centroid.
    Eval_centroid,
    /// Declare the GS instance count.
    DclGsInstanceCount,
    // DX11 misc (207–208)
    /// Abort shader execution (debug).
    Abort,
    /// Trigger a debug breakpoint.
    DebugBreak,
    // DX11.1 (210–217)
    /// Double-precision divide.
    Ddiv,
    /// Double-precision fused multiply-add.
    Dfma,
    /// Double-precision reciprocal.
    Drcp,
    /// Masked sum of absolute differences (MSAD).
    Msad,
    /// Double to signed integer conversion.
    Dtoi,
    /// Double to unsigned integer conversion.
    Dtou,
    /// Signed integer to double conversion.
    Itod,
    /// Unsigned integer to double conversion.
    Utod,
    /// Unknown or unrecognised opcode (preserved for forward compatibility).
    Unknown(u32),
}

impl Opcode {
    /// The value of the opcode in bits 0 to 10 of an instruction's first token.
    pub open spec fn code(self) -> u32 {
        match self {
            Opcode::Add => 0,
            Opcode::And => 1,
            Opcode::Break => 2,
            Opcode::Breakc => 3,
            Opcode::Call => 4,
            Opcode::Callc => 5,
            Opcode::Case => 6,
            Opcode::Continue => 7,
            Opcode::Continuec => 8,
            Opcode::Cut => 9,
            Opcode::Default => 10,
            Opcode::Deriv_rtx => 11,
            Opcode::Deriv_rty => 12,
            Opcode::Discard => 13,
            Opcode::Div => 14,
            Opcode::Dp2 => 15,
            Opcode::Dp3 => 16,
            Opcode::Dp4 => 17,
            Opcode::Else => 18,
            Opcode::Emit => 19,
            Opcode::EmitThenCut => 20,
            Opcode::EndIf => 21,
            Opcode::EndLoop => 22,
            Opcode::EndSwitch => 23,
            Opcode::Eq => 24,
            Opcode::Exp => 25,
            Opcode::Frc => 26,
            Opcode::Ftoi => 27,
            Opcode::Ftou => 28,
            Opcode::Ge => 29,
            Opcode::Iadd => 30,
            Opcode::If => 31,
            Opcode::IEq => 32,
            Opcode::IGe => 33,
            Opcode::ILt => 34,
            Opcode::IMad => 35,
            Opcode::IMax => 36,
            Opcode::IMin => 37,
            Opcode::IMul => 38,
            Opcode::INe => 39,
            Opcode::INeg => 40,
            Opcode::Ishl => 41,
            Opcode::Ishr => 42,
            Opcode::Itof => 43,
            Opcode::Label => 44,
            Opcode::Ld => 45,
            Opcode::LdMs => 46,
            Opcode::Log => 47,
            Opcode::Loop => 48,
            Opcode::Lt => 49,
            Opcode::Mad => 50,
            Opcode::Min => 51,
            Opcode::Max => 52,
            Opcode::CustomData => 53,
            Opcode::Mov => 54,
            Opcode::Movc => 55,
            Opcode::Mul => 56,
            Opcode::Ne => 57,
            Opcode::Nop => 58,
            Opcode::Not => 59,
            Opcode::Or => 60,
            Opcode::Resinfo => 61,
            Opcode::Ret => 62,
            Opcode::Retc => 63,
            Opcode::Round_ne => 64,
            Opcode::Round_ni => 65,
            Opcode::Round_pi => 66,
            Opcode::Round_z => 67,
            Opcode::Rsq => 68,
            Opcode::Sample => 69,
            Opcode::SampleC => 70,
            Opcode::SampleCLz => 71,
            Opcode::SampleL => 72,
            Opcode::SampleD => 73,
            Opcode::SampleB => 74,
            Opcode::Sqrt => 75,
            Opcode::Switch => 76,
            Opcode::Sincos => 77,
            Opcode::UDiv => 78,
            Opcode::ULt => 79,
            Opcode::UGe => 80,
            Opcode::UMul => 81,
            Opcode::UMad => 82,
            Opcode::UMax => 83,
            Opcode::UMin => 84,
            Opcode::Ushr => 85,
            Opcode::Utof => 86,
            Opcode::Xor => 87,
            Opcode::DclResource => 88,
            Opcode::DclConstantBuffer => 89,
            Opcode::DclSampler => 90,
            Opcode::DclIndexRange => 91,
            Opcode::DclGsOutputPrimitiveTopology => 92,
            Opcode::DclGsInputPrimitive => 93,
            Opcode::DclMaxOutputVertexCount => 94,
            Opcode::DclInput => 95,
            Opcode::DclInputSgv => 96,
            Opcode::DclInputSiv => 97,
            Opcode::DclInputPs => 98,
            Opcode::DclInputPsSgv => 99,
            Opcode::DclInputPsSiv => 100,
            Opcode::DclOutput => 101,
            Opcode::DclOutputSgv => 102,
            Opcode::DclOutputSiv => 103,
            Opcode::DclTemps => 104,
            Opcode::DclIndexableTemp => 105,
            Opcode::DclGlobalFlags => 106,
            Opcode::Lod => 108,
            Opcode::Gather4 => 109,
            Opcode::SamplePos => 110,
            Opcode::SampleInfo => 111,
            Opcode::HsDecls => 113,
            Opcode::HsControlPointPhase => 114,
            Opcode::HsForkPhase => 115,
            Opcode::HsJoinPhase => 116,
            Opcode::EmitStream => 117,
            Opcode::CutStream => 118,
            Opcode::EmitThenCutStream => 119,
            Opcode::InterfaceCall => 120,
            Opcode::BufInfo => 121,
            Opcode::Deriv_rtx_coarse => 122,
            Opcode::Deriv_rtx_fine => 123,
            Opcode::Deriv_rty_coarse => 124,
            Opcode::Deriv_rty_fine => 125,
            Opcode::Gather4C => 126,
            Opcode::Gather4Po => 127,
            Opcode::Gather4PoC => 128,
            Opcode::Rcp => 129,
            Opcode::F32tof16 => 130,
            Opcode::F16tof32 => 131,
            Opcode::Uaddc => 132,
            Opcode::Usubb => 133,
            Opcode::Countbits => 134,
            Opcode::FirstbitHi => 135,
            Opcode::FirstbitLo => 136,
            Opcode::FirstbitShi => 137,
            Opcode::Ubfe => 138,
            Opcode::Ibfe => 139,
            Opcode::Bfi => 140,
            Opcode::Bfrev => 141,
            Opcode::Swapc => 142,
            Opcode::DclStream => 143,
            Opcode::DclFunctionBody => 144,
            Opcode::DclFunctionTable => 145,
            Opcode::DclInterface => 146,
            Opcode::DclInputControlPointCount => 147,
            Opcode::DclOutputControlPointCount => 148,
            Opcode::DclTessDomain => 149,
            Opcode::DclTessPartitioning => 150,
            Opcode::DclTessOutputPrimitive => 151,
            Opcode::DclHsMaxTessFactor => 152,
            Opcode::DclHsForkPhaseInstanceCount => 153,
            Opcode::DclHsJoinPhaseInstanceCount => 154,
            Opcode::DclThreadGroup => 155,
            Opcode::DclUnorderedAccessViewTyped => 156,
            Opcode::DclUnorderedAccessViewRaw => 157,
            Opcode::DclUnorderedAccessViewStructured => 158,
            Opcode::DclThreadGroupSharedMemoryRaw => 159,
            Opcode::DclThreadGroupSharedMemoryStructured => 160,
            Opcode::DclResourceRaw => 161,
            Opcode::DclResourceStructured => 162,
            Opcode::LdUavTyped => 163,
            Opcode::StoreUavTyped => 164,
            Opcode::LdRaw => 165,
            Opcode::StoreRaw => 166,
            Opcode::LdStructured => 167,
            Opcode::StoreStructured => 168,
            Opcode::AtomicAnd => 169,
            Opcode::AtomicOr => 170,
            Opcode::AtomicXor => 171,
            Opcode::AtomicCmpStore => 172,
            Opcode::AtomicIAdd => 173,
            Opcode::AtomicIMax => 174,
            Opcode::AtomicIMin => 175,
            Opcode::AtomicUMax => 176,
            Opcode::AtomicUMin => 177,
            Opcode::ImmAtomicAlloc => 178,
            Opcode::ImmAtomicConsume => 179,
            Opcode::ImmAtomicIAdd => 180,
            Opcode::ImmAtomicAnd => 181,
            Opcode::ImmAtomicOr => 182,
            Opcode::ImmAtomicXor => 183,
            Opcode::ImmAtomicExch => 184,
            Opcode::ImmAtomicCmpExch => 185,
            Opcode::ImmAtomicIMax => 186,
            Opcode::ImmAtomicIMin => 187,
            Opcode::ImmAtomicUMax => 188,
            Opcode::ImmAtomicUMin => 189,
            Opcode::Sync => 190,
            Opcode::Dadd => 191,
            Opcode::Dmax => 192,
            Opcode::Dmin => 193,
            Opcode::Dmul => 194,
            Opcode::Deq => 195,
            Opcode::Dge => 196,
            Opcode::Dlt => 197,
            Opcode::Dne => 198,
            Opcode::Dmov => 199,
            Opcode::Dmovc => 200,
            Opcode::Dtof => 201,
            Opcode::Ftod => 202,
            Opcode::Eval_snapped => 203,
            Opcode::Eval_sampleIndex => 204,
            Opcode::Eval_centroid => 205,
            Opcode::DclGsInstanceCount => 206,
            Opcode::Abort => 207,
            Opcode::DebugBreak => 208,
            Opcode::Ddiv => 210,
            Opcode::Dfma => 211,
            Opcode::Drcp => 212,
            Opcode::Msad => 213,
            Opcode::Dtoi => 214,
            Opcode::Dtou => 215,
            Opcode::Itod => 216,
            Opcode::Utod => 217,
            Opcode::Unknown(v) => v,
        }
    }

    /// No opcode but an unknown one has this value.
    pub open spec fn unassigned(v: u32) -> bool {
        v == 107 || v == 112 || v == 209 || v >= 218
    }

    /// The opcode that a value stands for.
    pub open spec fn of(v: u32) -> Opcode {
        choose|op: Opcode| #[trigger] op.code() == v && (op is Unknown <==> Opcode::unassigned(v))
    }

    /// The opcode's name in a listing.
    pub open spec fn mnemonic(self) -> Seq<char> {
        match self {
            Opcode::Add => "add"@,
            Opcode::And => "and"@,
            Opcode::Break => "break"@,
            Opcode::Breakc => "breakc"@,
            Opcode::Call => "call"@,
            Opcode::Callc => "callc"@,
            Opcode::Case => "case"@,
            Opcode::Continue => "continue"@,
            Opcode::Continuec => "continuec"@,
            Opcode::Cut => "cut"@,
            Opcode::Default => "default"@,
            Opcode::Deriv_rtx => "deriv_rtx"@,
            Opcode::Deriv_rty => "deriv_rty"@,
            Opcode::Discard => "discard"@,
            Opcode::Div => "div"@,
            Opcode::Dp2 => "dp2"@,
            Opcode::Dp3 => "dp3"@,
            Opcode::Dp4 => "dp4"@,
            Opcode::Else => "else"@,
            Opcode::Emit => "emit"@,
            Opcode::EmitThenCut => "emit_then_cut"@,
            Opcode::EmitStream => "emit_stream"@,
            Opcode::CutStream => "cut_stream"@,
            Opcode::EmitThenCutStream => "emit_then_cut_stream"@,
            Opcode::InterfaceCall => "interface_call"@,
            Opcode::EndIf => "endif"@,
            Opcode::EndLoop => "endloop"@,
            Opcode::EndSwitch => "endswitch"@,
            Opcode::Eq => "eq"@,
            Opcode::Exp => "exp"@,
            Opcode::Frc => "frc"@,
            Opcode::Ftoi => "ftoi"@,
            Opcode::Ftou => "ftou"@,
            Opcode::Ge => "ge"@,
            Opcode::Iadd => "iadd"@,
            Opcode::If => "if"@,
            Opcode::IEq => "ieq"@,
            Opcode::IGe => "ige"@,
            Opcode::ILt => "ilt"@,
            Opcode::IMad => "imad"@,
            Opcode::IMax => "imax"@,
            Opcode::IMin => "imin"@,
            Opcode::IMul => "imul"@,
            Opcode::INe => "ine"@,
            Opcode::INeg => "ineg"@,
            Opcode::Ishl => "ishl"@,
            Opcode::Ishr => "ishr"@,
            Opcode::Itof => "itof"@,
            Opcode::Label => "label"@,
            Opcode::Ld => "ld"@,
            Opcode::LdMs => "ld_ms"@,
            Opcode::Log => "log"@,
            Opcode::Loop => "loop"@,
            Opcode::Lt => "lt"@,
            Opcode::Mad => "mad"@,
            Opcode::Min => "min"@,
            Opcode::Max => "max"@,
            Opcode::CustomData => "customdata"@,
            Opcode::Mov => "mov"@,
            Opcode::Movc => "movc"@,
            Opcode::Mul => "mul"@,
            Opcode::Ne => "ne"@,
            Opcode::Nop => "nop"@,
            Opcode::Not => "not"@,
            Opcode::Or => "or"@,
            Opcode::Resinfo => "resinfo"@,
            Opcode::Ret => "ret"@,
            Opcode::Retc => "retc"@,
            Opcode::Round_ne => "round_ne"@,
            Opcode::Round_ni => "round_ni"@,
            Opcode::Round_pi => "round_pi"@,
            Opcode::Round_z => "round_z"@,
            Opcode::Rsq => "rsq"@,
            Opcode::Sample => "sample"@,
            Opcode::SampleC => "sample_c"@,
            Opcode::SampleCLz => "sample_c_lz"@,
            Opcode::SampleL => "sample_l"@,
            Opcode::SampleD => "sample_d"@,
            Opcode::SampleB => "sample_b"@,
            Opcode::Sqrt => "sqrt"@,
            Opcode::Switch => "switch"@,
            Opcode::Sincos => "sincos"@,
            Opcode::UDiv => "udiv"@,
            Opcode::ULt => "ult"@,
            Opcode::UGe => "uge"@,
            Opcode::UMul => "umul"@,
            Opcode::UMad => "umad"@,
            Opcode::UMax => "umax"@,
            Opcode::UMin => "umin"@,
            Opcode::Ushr => "ushr"@,
            Opcode::Utof => "utof"@,
            Opcode::Xor => "xor"@,
            Opcode::DclGlobalFlags => "dcl_globalFlags"@,
            Opcode::DclInput => "dcl_input"@,
            Opcode::DclInputSgv => "dcl_input_sgv"@,
            Opcode::DclInputSiv => "dcl_input_siv"@,
            Opcode::DclInputPs => "dcl_input_ps"@,
            Opcode::DclInputPsSgv => "dcl_input_ps_sgv"@,
            Opcode::DclInputPsSiv => "dcl_input_ps_siv"@,
            Opcode::DclOutput => "dcl_output"@,
            Opcode::DclOutputSgv => "dcl_output_sgv"@,
            Opcode::DclOutputSiv => "dcl_output_siv"@,
            Opcode::DclResource => "dcl_resource"@,
            Opcode::DclSampler => "dcl_sampler"@,
            Opcode::DclConstantBuffer => "dcl_constantbuffer"@,
            Opcode::DclTemps => "dcl_temps"@,
            Opcode::DclIndexableTemp => "dcl_indexableTemp"@,
            Opcode::DclIndexRange => "dcl_indexRange"@,
            Opcode::DclGsInputPrimitive => "dcl_inputPrimitive"@,
            Opcode::DclGsOutputPrimitiveTopology => "dcl_outputTopology"@,
            Opcode::DclMaxOutputVertexCount => "dcl_maxOutputVertexCount"@,
            Opcode::DclGsInstanceCount => "dcl_gsInstanceCount"@,
            Opcode::DclOutputControlPointCount => "dcl_outputControlPointCount"@,
            Opcode::DclInputControlPointCount => "dcl_inputControlPointCount"@,
            Opcode::DclTessDomain => "dcl_tessDomain"@,
            Opcode::DclTessPartitioning => "dcl_tessPartitioning"@,
            Opcode::DclTessOutputPrimitive => "dcl_tessOutputPrimitive"@,
            Opcode::DclHsMaxTessFactor => "dcl_hsMaxTessFactor"@,
            Opcode::DclHsForkPhaseInstanceCount => "dcl_hsForkPhaseInstanceCount"@,
            Opcode::DclHsJoinPhaseInstanceCount => "dcl_hsJoinPhaseInstanceCount"@,
            Opcode::HsDecls => "hs_decls"@,
            Opcode::HsControlPointPhase => "hs_control_point_phase"@,
            Opcode::HsForkPhase => "hs_fork_phase"@,
            Opcode::HsJoinPhase => "hs_join_phase"@,
            Opcode::DclStream => "dcl_stream"@,
            Opcode::DclResourceStructured => "dcl_resource_structured"@,
            Opcode::DclResourceRaw => "dcl_resource_raw"@,
            Opcode::DclUnorderedAccessViewTyped => "dcl_uav_typed"@,
            Opcode::DclUnorderedAccessViewRaw => "dcl_uav_raw"@,
            Opcode::DclUnorderedAccessViewStructured => "dcl_uav_structured"@,
            Opcode::DclThreadGroup => "dcl_thread_group"@,
            Opcode::DclThreadGroupSharedMemoryRaw => "dcl_tgsm_raw"@,
            Opcode::DclThreadGroupSharedMemoryStructured => "dcl_tgsm_structured"@,
            Opcode::Sync => "sync"@,
            Opcode::DclFunctionBody => "dcl_function_body"@,
            Opcode::DclFunctionTable => "dcl_function_table"@,
            Opcode::DclInterface => "dcl_interface"@,
            Opcode::BufInfo => "bufinfo"@,
            Opcode::LdStructured => "ld_structured"@,
            Opcode::StoreStructured => "store_structured"@,
            Opcode::LdRaw => "ld_raw"@,
            Opcode::StoreRaw => "store_raw"@,
            Opcode::LdUavTyped => "ld_uav_typed"@,
            Opcode::StoreUavTyped => "store_uav_typed"@,
            Opcode::AtomicAnd => "atomic_and"@,
            Opcode::AtomicOr => "atomic_or"@,
            Opcode::AtomicXor => "atomic_xor"@,
            Opcode::AtomicCmpStore => "atomic_cmp_store"@,
            Opcode::AtomicIAdd => "atomic_iadd"@,
            Opcode::AtomicIMax => "atomic_imax"@,
            Opcode::AtomicIMin => "atomic_imin"@,
            Opcode::AtomicUMax => "atomic_umax"@,
            Opcode::AtomicUMin => "atomic_umin"@,
            Opcode::ImmAtomicAlloc => "imm_atomic_alloc"@,
            Opcode::ImmAtomicConsume => "imm_atomic_consume"@,
            Opcode::ImmAtomicIAdd => "imm_atomic_iadd"@,
            Opcode::ImmAtomicAnd => "imm_atomic_and"@,
            Opcode::ImmAtomicOr => "imm_atomic_or"@,
            Opcode::ImmAtomicXor => "imm_atomic_xor"@,
            Opcode::ImmAtomicExch => "imm_atomic_exch"@,
            Opcode::ImmAtomicCmpExch => "imm_atomic_cmp_exch"@,
            Opcode::ImmAtomicIMax => "imm_atomic_imax"@,
            Opcode::ImmAtomicIMin => "imm_atomic_imin"@,
            Opcode::ImmAtomicUMax => "imm_atomic_umax"@,
            Opcode::ImmAtomicUMin => "imm_atomic_umin"@,
            Opcode::Eval_snapped => "eval_snapped"@,
            Opcode::Eval_sampleIndex => "eval_sample_index"@,
            Opcode::Eval_centroid => "eval_centroid"@,
            Opcode::Swapc => "swapc"@,
            Opcode::Uaddc => "uaddc"@,
            Opcode::Usubb => "usubb"@,
            Opcode::Countbits => "countbits"@,
            Opcode::FirstbitHi => "firstbit_hi"@,
            Opcode::FirstbitLo => "firstbit_lo"@,
            Opcode::FirstbitShi => "firstbit_shi"@,
            Opcode::Ubfe => "ubfe"@,
            Opcode::Ibfe => "ibfe"@,
            Opcode::Bfi => "bfi"@,
            Opcode::Bfrev => "bfrev"@,
            Opcode::F16tof32 => "f16tof32"@,
            Opcode::F32tof16 => "f32tof16"@,
            Opcode::Rcp => "rcp"@,
            Opcode::Deriv_rtx_coarse => "deriv_rtx_coarse"@,
            Opcode::Deriv_rtx_fine => "deriv_rtx_fine"@,
            Opcode::Deriv_rty_coarse => "deriv_rty_coarse"@,
            Opcode::Deriv_rty_fine => "deriv_rty_fine"@,
            Opcode::Gather4 => "gather4"@,
            Opcode::Gather4C => "gather4_c"@,
            Opcode::Gather4Po => "gather4_po"@,
            Opcode::Gather4PoC => "gather4_po_c"@,
            Opcode::Lod => "lod"@,
            Opcode::SamplePos => "sample_pos"@,
            Opcode::SampleInfo => "sample_info"@,
            Opcode::Dadd => "dadd"@,
            Opcode::Dmax => "dmax"@,
            Opcode::Dmin => "dmin"@,
            Opcode::Dmul => "dmul"@,
            Opcode::Deq => "deq"@,
            Opcode::Dge => "dge"@,
            Opcode::Dlt => "dlt"@,
            Opcode::Dne => "dne"@,
            Opcode::Dmov => "dmov"@,
            Opcode::Dmovc => "dmovc"@,
            Opcode::Dtof => "dtof"@,
            Opcode::Ftod => "ftod"@,
            Opcode::Ddiv => "ddiv"@,
            Opcode::Dfma => "dfma"@,
            Opcode::Drcp => "drcp"@,
            Opcode::Msad => "msad"@,
            Opcode::Dtoi => "dtoi"@,
            Opcode::Dtou => "dtou"@,
            Opcode::Itod => "itod"@,
            Opcode::Utod => "utod"@,
            Opcode::Abort => "abort"@,
            Opcode::DebugBreak => "debug_break"@,
            Opcode::Unknown(_) => "unknown_op"@,
        }
    }

    /// The opcode with a value.
    #[verifier::rlimit(100)]
    #[verifier::spinoff_prover]
    fn from_value(v: u32) -> (r: Self)
        ensures
            r.code() == v,
            r is Unknown <==> Opcode::unassigned(v),
    {
        match v {
            0 => Opcode::Add,
            1 => Opcode::And,
            2 => Opcode::Break,
            3 => Opcode::Breakc,
            4 => Opcode::Call,
            5 => Opcode::Callc,
            6 => Opcode::Case,
            7 => Opcode::Continue,
            8 => Opcode::Continuec,
            9 => Opcode::Cut,
            10 => Opcode::Default,
            11 => Opcode::Deriv_rtx,
            12 => Opcode::Deriv_rty,
            13 => Opcode::Discard,
            14 => Opcode::Div,
            15 => Opcode::Dp2,
            16 => Opcode::Dp3,
            17 => Opcode::Dp4,
            18 => Opcode::Else,
            19 => Opcode::Emit,
            20 => Opcode::EmitThenCut,
            21 => Opcode::EndIf,
            22 => Opcode::EndLoop,
            23 => Opcode::EndSwitch,
            24 => Opcode::Eq,
            25 => Opcode::Exp,
            26 => Opcode::Frc,
            27 => Opcode::Ftoi,
            28 => Opcode::Ftou,
            29 => Opcode::Ge,
            30 => Opcode::Iadd,
            31 => Opcode::If,
            32 => Opcode::IEq,
            33 => Opcode::IGe,
            34 => Opcode::ILt,
            35 => Opcode::IMad,
            36 => Opcode::IMax,
            37 => Opcode::IMin,
            38 => Opcode::IMul,
            39 => Opcode::INe,
            40 => Opcode::INeg,
            41 => Opcode::Ishl,
            42 => Opcode::Ishr,
            43 => Opcode::Itof,
            44 => Opcode::Label,
            45 => Opcode::Ld,
            46 => Opcode::LdMs,
            47 => Opcode::Log,
            48 => Opcode::Loop,
            49 => Opcode::Lt,
            50 => Opcode::Mad,
            51 => Opcode::Min,
            52 => Opcode::Max,
            53 => Opcode::CustomData,
            54 => Opcode::Mov,
            55 => Opcode::Movc,
            56 => Opcode::Mul,
            57 => Opcode::Ne,
            58 => Opcode::Nop,
            59 => Opcode::Not,
            60 => Opcode::Or,
            61 => Opcode::Resinfo,
            62 => Opcode::Ret,
            63 => Opcode::Retc,
            64 => Opcode::Round_ne,
            65 => Opcode::Round_ni,
            66 => Opcode::Round_pi,
            67 => Opcode::Round_z,
            68 => Opcode::Rsq,
            69 => Opcode::Sample,
            70 => Opcode::SampleC,
            71 => Opcode::SampleCLz,
            72 => Opcode::SampleL,
            73 => Opcode::SampleD,
            74 => Opcode::SampleB,
            75 => Opcode::Sqrt,
            76 => Opcode::Switch,
            77 => Opcode::Sincos,
            78 => Opcode::UDiv,
            79 => Opcode::ULt,
            80 => Opcode::UGe,
            81 => Opcode::UMul,
            82 => Opcode::UMad,
            83 => Opcode::UMax,
            84 => Opcode::UMin,
            85 => Opcode::Ushr,
            86 => Opcode::Utof,
            87 => Opcode::Xor,
            88 => Opcode::DclResource,
            89 => Opcode::DclConstantBuffer,
            90 => Opcode::DclSampler,
            91 => Opcode::DclIndexRange,
            92 => Opcode::DclGsOutputPrimitiveTopology,
            93 => Opcode::DclGsInputPrimitive,
            94 => Opcode::DclMaxOutputVertexCount,
            95 => Opcode::DclInput,
            96 => Opcode::DclInputSgv,
            97 => Opcode::DclInputSiv,
            98 => Opcode::DclInputPs,
            99 => Opcode::DclInputPsSgv,
            100 => Opcode::DclInputPsSiv,
            101 => Opcode::DclOutput,
            102 => Opcode::DclOutputSgv,
            103 => Opcode::DclOutputSiv,
            104 => Opcode::DclTemps,
            105 => Opcode::DclIndexableTemp,
            106 => Opcode::DclGlobalFlags,
            108 => Opcode::Lod,
            109 => Opcode::Gather4,
            110 => Opcode::SamplePos,
            111 => Opcode::SampleInfo,
            113 => Opcode::HsDecls,
            114 => Opcode::HsControlPointPhase,
            115 => Opcode::HsForkPhase,
            116 => Opcode::HsJoinPhase,
            117 => Opcode::EmitStream,
            118 => Opcode::CutStream,
            119 => Opcode::EmitThenCutStream,
            120 => Opcode::InterfaceCall,
            121 => Opcode::BufInfo,
            122 => Opcode::Deriv_rtx_coarse,
            123 => Opcode::Deriv_rtx_fine,
            124 => Opcode::Deriv_rty_coarse,
            125 => Opcode::Deriv_rty_fine,
            126 => Opcode::Gather4C,
            127 => Opcode::Gather4Po,
            128 => Opcode::Gather4PoC,
            129 => Opcode::Rcp,
            130 => Opcode::F32tof16,
            131 => Opcode::F16tof32,
            132 => Opcode::Uaddc,
            133 => Opcode::Usubb,
            134 => Opcode::Countbits,
            135 => Opcode::FirstbitHi,
            136 => Opcode::FirstbitLo,
            137 => Opcode::FirstbitShi,
            138 => Opcode::Ubfe,
            139 => Opcode::Ibfe,
            140 => Opcode::Bfi,
            141 => Opcode::Bfrev,
            142 => Opcode::Swapc,
            143 => Opcode::DclStream,
            144 => Opcode::DclFunctionBody,
            145 => Opcode::DclFunctionTable,
            146 => Opcode::DclInterface,
            147 => Opcode::DclInputControlPointCount,
            148 => Opcode::DclOutputControlPointCount,
            149 => Opcode::DclTessDomain,
            150 => Opcode::DclTessPartitioning,
            151 => Opcode::DclTessOutputPrimitive,
            152 => Opcode::DclHsMaxTessFactor,
            153 => Opcode::DclHsForkPhaseInstanceCount,
            154 => Opcode::DclHsJoinPhaseInstanceCount,
            155 => Opcode::DclThreadGroup,
            156 => Opcode::DclUnorderedAccessViewTyped,
            157 => Opcode::DclUnorderedAccessViewRaw,
            158 => Opcode::DclUnorderedAccessViewStructured,
            159 => Opcode::DclThreadGroupSharedMemoryRaw,
            160 => Opcode::DclThreadGroupSharedMemoryStructured,
            161 => Opcode::DclResourceRaw,
            162 => Opcode::DclResourceStructured,
            163 => Opcode::LdUavTyped,
            164 => Opcode::StoreUavTyped,
            165 => Opcode::LdRaw,
            166 => Opcode::StoreRaw,
            167 => Opcode::LdStructured,
            168 => Opcode::StoreStructured,
            169 => Opcode::AtomicAnd,
            170 => Opcode::AtomicOr,
            171 => Opcode::AtomicXor,
            172 => Opcode::AtomicCmpStore,
            173 => Opcode::AtomicIAdd,
            174 => Opcode::AtomicIMax,
            175 => Opcode::AtomicIMin,
            176 => Opcode::AtomicUMax,
            177 => Opcode::AtomicUMin,
            178 => Opcode::ImmAtomicAlloc,
            179 => Opcode::ImmAtomicConsume,
            180 => Opcode::ImmAtomicIAdd,
            181 => Opcode::ImmAtomicAnd,
            182 => Opcode::ImmAtomicOr,
            183 => Opcode::ImmAtomicXor,
            184 => Opcode::ImmAtomicExch,
            185 => Opcode::ImmAtomicCmpExch,
            186 => Opcode::ImmAtomicIMax,
            187 => Opcode::ImmAtomicIMin,
            188 => Opcode::ImmAtomicUMax,
            189 => Opcode::ImmAtomicUMin,
            190 => Opcode::Sync,
            191 => Opcode::Dadd,
            192 => Opcode::Dmax,
            193 => Opcode::Dmin,
            194 => Opcode::Dmul,
            195 => Opcode::Deq,
            196 => Opcode::Dge,
            197 => Opcode::Dlt,
            198 => Opcode::Dne,
            199 => Opcode::Dmov,
            200 => Opcode::Dmovc,
            201 => Opcode::Dtof,
            202 => Opcode::Ftod,
            203 => Opcode::Eval_snapped,
            204 => Opcode::Eval_sampleIndex,
            205 => Opcode::Eval_centroid,
            206 => Opcode::DclGsInstanceCount,
            207 => Opcode::Abort,
            208 => Opcode::DebugBreak,
            210 => Opcode::Ddiv,
            211 => Opcode::Dfma,
            212 => Opcode::Drcp,
            213 => Opcode::Msad,
            214 => Opcode::Dtoi,
            215 => Opcode::Dtou,
            216 => Opcode::Itod,
            217 => Opcode::Utod,
            _ => Opcode::Unknown(v),
        }
    }

    /// Converts the value of an instruction token's bits 0 to 10.
    pub fn from_u32(v: u32) -> (r: Self)
        ensures
            r == Opcode::of(v),
            r.code() == v,
            r is Unknown <==> Opcode::unassigned(v),
    {
        let r = Opcode::from_value(v);
        proof {
            law_code_tells_opcodes_apart(r, Opcode::of(v));
        }
        r
    }

    /// Converts back to the value in the instruction token.
    pub fn to_u32(&self) -> (r: u32)
        ensures
            r == self.code(),
    {
        match self {
            Opcode::Add => 0,
            Opcode::And => 1,
            Opcode::Break => 2,
            Opcode::Breakc => 3,
            Opcode::Call => 4,
            Opcode::Callc => 5,
            Opcode::Case => 6,
            Opcode::Continue => 7,
            Opcode::Continuec => 8,
            Opcode::Cut => 9,
            Opcode::Default => 10,
            Opcode::Deriv_rtx => 11,
            Opcode::Deriv_rty => 12,
            Opcode::Discard => 13,
            Opcode::Div => 14,
            Opcode::Dp2 => 15,
            Opcode::Dp3 => 16,
            Opcode::Dp4 => 17,
            Opcode::Else => 18,
            Opcode::Emit => 19,
            Opcode::EmitThenCut => 20,
            Opcode::EndIf => 21,
            Opcode::EndLoop => 22,
            Opcode::EndSwitch => 23,
            Opcode::Eq => 24,
            Opcode::Exp => 25,
            Opcode::Frc => 26,
            Opcode::Ftoi => 27,
            Opcode::Ftou => 28,
            Opcode::Ge => 29,
            Opcode::Iadd => 30,
            Opcode::If => 31,
            Opcode::IEq => 32,
            Opcode::IGe => 33,
            Opcode::ILt => 34,
            Opcode::IMad => 35,
            Opcode::IMax => 36,
            Opcode::IMin => 37,
            Opcode::IMul => 38,
            Opcode::INe => 39,
            Opcode::INeg => 40,
            Opcode::Ishl => 41,
            Opcode::Ishr => 42,
            Opcode::Itof => 43,
            Opcode::Label => 44,
            Opcode::Ld => 45,
            Opcode::LdMs => 46,
            Opcode::Log => 47,
            Opcode::Loop => 48,
            Opcode::Lt => 49,
            Opcode::Mad => 50,
            Opcode::Min => 51,
            Opcode::Max => 52,
            Opcode::CustomData => 53,
            Opcode::Mov => 54,
            Opcode::Movc => 55,
            Opcode::Mul => 56,
            Opcode::Ne => 57,
            Opcode::Nop => 58,
            Opcode::Not => 59,
            Opcode::Or => 60,
            Opcode::Resinfo => 61,
            Opcode::Ret => 62,
            Opcode::Retc => 63,
            Opcode::Round_ne => 64,
            Opcode::Round_ni => 65,
            Opcode::Round_pi => 66,
            Opcode::Round_z => 67,
            Opcode::Rsq => 68,
            Opcode::Sample => 69,
            Opcode::SampleC => 70,
            Opcode::SampleCLz => 71,
            Opcode::SampleL => 72,
            Opcode::SampleD => 73,
            Opcode::SampleB => 74,
            Opcode::Sqrt => 75,
            Opcode::Switch => 76,
            Opcode::Sincos => 77,
            Opcode::UDiv => 78,
            Opcode::ULt => 79,
            Opcode::UGe => 80,
            Opcode::UMul => 81,
            Opcode::UMad => 82,
            Opcode::UMax => 83,
            Opcode::UMin => 84,
            Opcode::Ushr => 85,
            Opcode::Utof => 86,
            Opcode::Xor => 87,
            Opcode::DclResource => 88,
            Opcode::DclConstantBuffer => 89,
            Opcode::DclSampler => 90,
            Opcode::DclIndexRange => 91,
            Opcode::DclGsOutputPrimitiveTopology => 92,
            Opcode::DclGsInputPrimitive => 93,
            Opcode::DclMaxOutputVertexCount => 94,
            Opcode::DclInput => 95,
            Opcode::DclInputSgv => 96,
            Opcode::DclInputSiv => 97,
            Opcode::DclInputPs => 98,
            Opcode::DclInputPsSgv => 99,
            Opcode::DclInputPsSiv => 100,
            Opcode::DclOutput => 101,
            Opcode::DclOutputSgv => 102,
            Opcode::DclOutputSiv => 103,
            Opcode::DclTemps => 104,
            Opcode::DclIndexableTemp => 105,
            Opcode::DclGlobalFlags => 106,
            Opcode::Lod => 108,
            Opcode::Gather4 => 109,
            Opcode::SamplePos => 110,
            Opcode::SampleInfo => 111,
            Opcode::HsDecls => 113,
            Opcode::HsControlPointPhase => 114,
            Opcode::HsForkPhase => 115,
            Opcode::HsJoinPhase => 116,
            Opcode::EmitStream => 117,
            Opcode::CutStream => 118,
            Opcode::EmitThenCutStream => 119,
            Opcode::InterfaceCall => 120,
            Opcode::BufInfo => 121,
            Opcode::Deriv_rtx_coarse => 122,
            Opcode::Deriv_rtx_fine => 123,
            Opcode::Deriv_rty_coarse => 124,
            Opcode::Deriv_rty_fine => 125,
            Opcode::Gather4C => 126,
            Opcode::Gather4Po => 127,
            Opcode::Gather4PoC => 128,
            Opcode::Rcp => 129,
            Opcode::F32tof16 => 130,
            Opcode::F16tof32 => 131,
            Opcode::Uaddc => 132,
            Opcode::Usubb => 133,
            Opcode::Countbits => 134,
            Opcode::FirstbitHi => 135,
            Opcode::FirstbitLo => 136,
            Opcode::FirstbitShi => 137,
            Opcode::Ubfe => 138,
            Opcode::Ibfe => 139,
            Opcode::Bfi => 140,
            Opcode::Bfrev => 141,
            Opcode::Swapc => 142,
            Opcode::DclStream => 143,
            Opcode::DclFunctionBody => 144,
            Opcode::DclFunctionTable => 145,
            Opcode::DclInterface => 146,
            Opcode::DclInputControlPointCount => 147,
            Opcode::DclOutputControlPointCount => 148,
            Opcode::DclTessDomain => 149,
            Opcode::DclTessPartitioning => 150,
            Opcode::DclTessOutputPrimitive => 151,
            Opcode::DclHsMaxTessFactor => 152,
            Opcode::DclHsForkPhaseInstanceCount => 153,
            Opcode::DclHsJoinPhaseInstanceCount => 154,
            Opcode::DclThreadGroup => 155,
            Opcode::DclUnorderedAccessViewTyped => 156,
            Opcode::DclUnorderedAccessViewRaw => 157,
            Opcode::DclUnorderedAccessViewStructured => 158,
            Opcode::DclThreadGroupSharedMemoryRaw => 159,
            Opcode::DclThreadGroupSharedMemoryStructured => 160,
            Opcode::DclResourceRaw => 161,
            Opcode::DclResourceStructured => 162,
            Opcode::LdUavTyped => 163,
            Opcode::StoreUavTyped => 164,
            Opcode::LdRaw => 165,
            Opcode::StoreRaw => 166,
            Opcode::LdStructured => 167,
            Opcode::StoreStructured => 168,
            Opcode::AtomicAnd => 169,
            Opcode::AtomicOr => 170,
            Opcode::AtomicXor => 171,
            Opcode::AtomicCmpStore => 172,
            Opcode::AtomicIAdd => 173,
            Opcode::AtomicIMax => 174,
            Opcode::AtomicIMin => 175,
            Opcode::AtomicUMax => 176,
            Opcode::AtomicUMin => 177,
            Opcode::ImmAtomicAlloc => 178,
            Opcode::ImmAtomicConsume => 179,
            Opcode::ImmAtomicIAdd => 180,
            Opcode::ImmAtomicAnd => 181,
            Opcode::ImmAtomicOr => 182,
            Opcode::ImmAtomicXor => 183,
            Opcode::ImmAtomicExch => 184,
            Opcode::ImmAtomicCmpExch => 185,
            Opcode::ImmAtomicIMax => 186,
            Opcode::ImmAtomicIMin => 187,
            Opcode::ImmAtomicUMax => 188,
            Opcode::ImmAtomicUMin => 189,
            Opcode::Sync => 190,
            Opcode::Dadd => 191,
            Opcode::Dmax => 192,
            Opcode::Dmin => 193,
            Opcode::Dmul => 194,
            Opcode::Deq => 195,
            Opcode::Dge => 196,
            Opcode::Dlt => 197,
            Opcode::Dne => 198,
            Opcode::Dmov => 199,
            Opcode::Dmovc => 200,
            Opcode::Dtof => 201,
            Opcode::Ftod => 202,
            Opcode::Eval_snapped => 203,
            Opcode::Eval_sampleIndex => 204,
            Opcode::Eval_centroid => 205,
            Opcode::DclGsInstanceCount => 206,
            Opcode::Abort => 207,
            Opcode::DebugBreak => 208,
            Opcode::Ddiv => 210,
            Opcode::Dfma => 211,
            Opcode::Drcp => 212,
            Opcode::Msad => 213,
            Opcode::Dtoi => 214,
            Opcode::Dtou => 215,
            Opcode::Itod => 216,
            Opcode::Utod => 217,
            Opcode::Unknown(v) => *v,
        }
    }

    /// Returns the mnemonic used in a listing.
    pub fn name(&self) -> (r: &'static str)
        ensures
            r@ == self.mnemonic(),
    {
        match self {
            Opcode::Add => "add",
            Opcode::And => "and",
            Opcode::Break => "break",
            Opcode::Breakc => "breakc",
            Opcode::Call => "call",
            Opcode::Callc => "callc",
            Opcode::Case => "case",
            Opcode::Continue => "continue",
            Opcode::Continuec => "continuec",
            Opcode::Cut => "cut",
            Opcode::Default => "default",
            Opcode::Deriv_rtx => "deriv_rtx",
            Opcode::Deriv_rty => "deriv_rty",
            Opcode::Discard => "discard",
            Opcode::Div => "div",
            Opcode::Dp2 => "dp2",
            Opcode::Dp3 => "dp3",
            Opcode::Dp4 => "dp4",
            Opcode::Else => "else",
            Opcode::Emit => "emit",
            Opcode::EmitThenCut => "emit_then_cut",
            Opcode::EmitStream => "emit_stream",
            Opcode::CutStream => "cut_stream",
            Opcode::EmitThenCutStream => "emit_then_cut_stream",
            Opcode::InterfaceCall => "interface_call",
            Opcode::EndIf => "endif",
            Opcode::EndLoop => "endloop",
            Opcode::EndSwitch => "endswitch",
            Opcode::Eq => "eq",
            Opcode::Exp => "exp",
            Opcode::Frc => "frc",
            Opcode::Ftoi => "ftoi",
            Opcode::Ftou => "ftou",
            Opcode::Ge => "ge",
            Opcode::Iadd => "iadd",
            Opcode::If => "if",
            Opcode::IEq => "ieq",
            Opcode::IGe => "ige",
            Opcode::ILt => "ilt",
            Opcode::IMad => "imad",
            Opcode::IMax => "imax",
            Opcode::IMin => "imin",
            Opcode::IMul => "imul",
            Opcode::INe => "ine",
            Opcode::INeg => "ineg",
            Opcode::Ishl => "ishl",
            Opcode::Ishr => "ishr",
            Opcode::Itof => "itof",
            Opcode::Label => "label",
            Opcode::Ld => "ld",
            Opcode::LdMs => "ld_ms",
            Opcode::Log => "log",
            Opcode::Loop => "loop",
            Opcode::Lt => "lt",
            Opcode::Mad => "mad",
            Opcode::Min => "min",
            Opcode::Max => "max",
            Opcode::CustomData => "customdata",
            Opcode::Mov => "mov",
            Opcode::Movc => "movc",
            Opcode::Mul => "mul",
            Opcode::Ne => "ne",
            Opcode::Nop => "nop",
            Opcode::Not => "not",
            Opcode::Or => "or",
            Opcode::Resinfo => "resinfo",
            Opcode::Ret => "ret",
            Opcode::Retc => "retc",
            Opcode::Round_ne => "round_ne",
            Opcode::Round_ni => "round_ni",
            Opcode::Round_pi => "round_pi",
            Opcode::Round_z => "round_z",
            Opcode::Rsq => "rsq",
            Opcode::Sample => "sample",
            Opcode::SampleC => "sample_c",
            Opcode::SampleCLz => "sample_c_lz",
            Opcode::SampleL => "sample_l",
            Opcode::SampleD => "sample_d",
            Opcode::SampleB => "sample_b",
            Opcode::Sqrt => "sqrt",
            Opcode::Switch => "switch",
            Opcode::Sincos => "sincos",
            Opcode::UDiv => "udiv",
            Opcode::ULt => "ult",
            Opcode::UGe => "uge",
            Opcode::UMul => "umul",
            Opcode::UMad => "umad",
            Opcode::UMax => "umax",
            Opcode::UMin => "umin",
            Opcode::Ushr => "ushr",
            Opcode::Utof => "utof",
            Opcode::Xor => "xor",
            Opcode::DclGlobalFlags => "dcl_globalFlags",
            Opcode::DclInput => "dcl_input",
            Opcode::DclInputSgv => "dcl_input_sgv",
            Opcode::DclInputSiv => "dcl_input_siv",
            Opcode::DclInputPs => "dcl_input_ps",
            Opcode::DclInputPsSgv => "dcl_input_ps_sgv",
            Opcode::DclInputPsSiv => "dcl_input_ps_siv",
            Opcode::DclOutput => "dcl_output",
            Opcode::DclOutputSgv => "dcl_output_sgv",
            Opcode::DclOutputSiv => "dcl_output_siv",
            Opcode::DclResource => "dcl_resource",
            Opcode::DclSampler => "dcl_sampler",
            Opcode::DclConstantBuffer => "dcl_constantbuffer",
            Opcode::DclTemps => "dcl_temps",
            Opcode::DclIndexableTemp => "dcl_indexableTemp",
            Opcode::DclIndexRange => "dcl_indexRange",
            Opcode::DclGsInputPrimitive => "dcl_inputPrimitive",
            Opcode::DclGsOutputPrimitiveTopology => "dcl_outputTopology",
            Opcode::DclMaxOutputVertexCount => "dcl_maxOutputVertexCount",
            Opcode::DclGsInstanceCount => "dcl_gsInstanceCount",
            Opcode::DclOutputControlPointCount => "dcl_outputControlPointCount",
            Opcode::DclInputControlPointCount => "dcl_inputControlPointCount",
            Opcode::DclTessDomain => "dcl_tessDomain",
            Opcode::DclTessPartitioning => "dcl_tessPartitioning",
            Opcode::DclTessOutputPrimitive => "dcl_tessOutputPrimitive",
            Opcode::DclHsMaxTessFactor => "dcl_hsMaxTessFactor",
            Opcode::DclHsForkPhaseInstanceCount => "dcl_hsForkPhaseInstanceCount",
            Opcode::DclHsJoinPhaseInstanceCount => "dcl_hsJoinPhaseInstanceCount",
            Opcode::HsDecls => "hs_decls",
            Opcode::HsControlPointPhase => "hs_control_point_phase",
            Opcode::HsForkPhase => "hs_fork_phase",
            Opcode::HsJoinPhase => "hs_join_phase",
            Opcode::DclStream => "dcl_stream",
            Opcode::DclResourceStructured => "dcl_resource_structured",
            Opcode::DclResourceRaw => "dcl_resource_raw",
            Opcode::DclUnorderedAccessViewTyped => "dcl_uav_typed",
            Opcode::DclUnorderedAccessViewRaw => "dcl_uav_raw",
            Opcode::DclUnorderedAccessViewStructured => "dcl_uav_structured",
            Opcode::DclThreadGroup => "dcl_thread_group",
            Opcode::DclThreadGroupSharedMemoryRaw => "dcl_tgsm_raw",
            Opcode::DclThreadGroupSharedMemoryStructured => "dcl_tgsm_structured",
            Opcode::Sync => "sync",
            Opcode::DclFunctionBody => "dcl_function_body",
            Opcode::DclFunctionTable => "dcl_function_table",
            Opcode::DclInterface => "dcl_interface",
            Opcode::BufInfo => "bufinfo",
            Opcode::LdStructured => "ld_structured",
            Opcode::StoreStructured => "store_structured",
            Opcode::LdRaw => "ld_raw",
            Opcode::StoreRaw => "store_raw",
            Opcode::LdUavTyped => "ld_uav_typed",
            Opcode::StoreUavTyped => "store_uav_typed",
            Opcode::AtomicAnd => "atomic_and",
            Opcode::AtomicOr => "atomic_or",
            Opcode::AtomicXor => "atomic_xor",
            Opcode::AtomicCmpStore => "atomic_cmp_store",
            Opcode::AtomicIAdd => "atomic_iadd",
            Opcode::AtomicIMax => "atomic_imax",
            Opcode::AtomicIMin => "atomic_imin",
            Opcode::AtomicUMax => "atomic_umax",
            Opcode::AtomicUMin => "atomic_umin",
            Opcode::ImmAtomicAlloc => "imm_atomic_alloc",
            Opcode::ImmAtomicConsume => "imm_atomic_consume",
            Opcode::ImmAtomicIAdd => "imm_atomic_iadd",
            Opcode::ImmAtomicAnd => "imm_atomic_and",
            Opcode::ImmAtomicOr => "imm_atomic_or",
            Opcode::ImmAtomicXor => "imm_atomic_xor",
            Opcode::ImmAtomicExch => "imm_atomic_exch",
            Opcode::ImmAtomicCmpExch => "imm_atomic_cmp_exch",
            Opcode::ImmAtomicIMax => "imm_atomic_imax",
            Opcode::ImmAtomicIMin => "imm_atomic_imin",
            Opcode::ImmAtomicUMax => "imm_atomic_umax",
            Opcode::ImmAtomicUMin => "imm_atomic_umin",
            Opcode::Eval_snapped => "eval_snapped",
            Opcode::Eval_sampleIndex => "eval_sample_index",
            Opcode::Eval_centroid => "eval_centroid",
            Opcode::Swapc => "swapc",
            Opcode::Uaddc => "uaddc",
            Opcode::Usubb => "usubb",
            Opcode::Countbits => "countbits",
            Opcode::FirstbitHi => "firstbit_hi",
            Opcode::FirstbitLo => "firstbit_lo",
            Opcode::FirstbitShi => "firstbit_shi",
            Opcode::Ubfe => "ubfe",
            Opcode::Ibfe => "ibfe",
            Opcode::Bfi => "bfi",
            Opcode::Bfrev => "bfrev",
            Opcode::F16tof32 => "f16tof32",
            Opcode::F32tof16 => "f32tof16",
            Opcode::Rcp => "rcp",
            Opcode::Deriv_rtx_coarse => "deriv_rtx_coarse",
            Opcode::Deriv_rtx_fine => "deriv_rtx_fine",
            Opcode::Deriv_rty_coarse => "deriv_rty_coarse",
            Opcode::Deriv_rty_fine => "deriv_rty_fine",
            Opcode::Gather4 => "gather4",
            Opcode::Gather4C => "gather4_c",
            Opcode::Gather4Po => "gather4_po",
            Opcode::Gather4PoC => "gather4_po_c",
            Opcode::Lod => "lod",
            Opcode::SamplePos => "sample_pos",
            Opcode::SampleInfo => "sample_info",
            Opcode::Dadd => "dadd",
            Opcode::Dmax => "dmax",
            Opcode::Dmin => "dmin",
            Opcode::Dmul => "dmul",
            Opcode::Deq => "deq",
            Opcode::Dge => "dge",
            Opcode::Dlt => "dlt",
            Opcode::Dne => "dne",
            Opcode::Dmov => "dmov",
            Opcode::Dmovc => "dmovc",
            Opcode::Dtof => "dtof",
            Opcode::Ftod => "ftod",
            Opcode::Ddiv => "ddiv",
            Opcode::Dfma => "dfma",
            Opcode::Drcp => "drcp",
            Opcode::Msad => "msad",
            Opcode::Dtoi => "dtoi",
            Opcode::Dtou => "dtou",
            Opcode::Itod => "itod",
            Opcode::Utod => "utod",
            Opcode::Abort => "abort",
            Opcode::DebugBreak => "debug_break",
            Opcode::Unknown(_) => "unknown_op",
        }
    }
}

/// An opcode is fixed by its value: known opcodes have values of their own, and those are not the
/// values of unknown ones.
pub proof fn law_code_tells_opcodes_apart(a: Opcode, b: Opcode)
    requires
        a.code() == b.code(),
        a is Unknown ==> Opcode::unassigned(a.code()),
        b is Unknown ==> Opcode::unassigned(b.code()),
    ensures
        a == b,
{
}

/// An opcode of a value that is assigned to one.
proof fn known(v: u32) -> (op: Opcode)
    requires
        !Opcode::unassigned(v),
    ensures
        op.code() == v,
        !(op is Unknown),
{
    match v {
        0 => Opcode::Add,
        1 => Opcode::And,
        2 => Opcode::Break,
        3 => Opcode::Breakc,
        4 => Opcode::Call,
        5 => Opcode::Callc,
        6 => Opcode::Case,
        7 => Opcode::Continue,
        8 => Opcode::Continuec,
        9 => Opcode::Cut,
        10 => Opcode::Default,
        11 => Opcode::Deriv_rtx,
        12 => Opcode::Deriv_rty,
        13 => Opcode::Discard,
        14 => Opcode::Div,
        15 => Opcode::Dp2,
        16 => Opcode::Dp3,
        17 => Opcode::Dp4,
        18 => Opcode::Else,
        19 => Opcode::Emit,
        20 => Opcode::EmitThenCut,
        21 => Opcode::EndIf,
        22 => Opcode::EndLoop,
        23 => Opcode::EndSwitch,
        24 => Opcode::Eq,
        25 => Opcode::Exp,
        26 => Opcode::Frc,
        27 => Opcode::Ftoi,
        28 => Opcode::Ftou,
        29 => Opcode::Ge,
        30 => Opcode::Iadd,
        31 => Opcode::If,
        32 => Opcode::IEq,
        33 => Opcode::IGe,
        34 => Opcode::ILt,
        35 => Opcode::IMad,
        36 => Opcode::IMax,
        37 => Opcode::IMin,
        38 => Opcode::IMul,
        39 => Opcode::INe,
        40 => Opcode::INeg,
        41 => Opcode::Ishl,
        42 => Opcode::Ishr,
        43 => Opcode::Itof,
        44 => Opcode::Label,
        45 => Opcode::Ld,
        46 => Opcode::LdMs,
        47 => Opcode::Log,
        48 => Opcode::Loop,
        49 => Opcode::Lt,
        50 => Opcode::Mad,
        51 => Opcode::Min,
        52 => Opcode::Max,
        53 => Opcode::CustomData,
        54 => Opcode::Mov,
        55 => Opcode::Movc,
        56 => Opcode::Mul,
        57 => Opcode::Ne,
        58 => Opcode::Nop,
        59 => Opcode::Not,
        60 => Opcode::Or,
        61 => Opcode::Resinfo,
        62 => Opcode::Ret,
        63 => Opcode::Retc,
        64 => Opcode::Round_ne,
        65 => Opcode::Round_ni,
        66 => Opcode::Round_pi,
        67 => Opcode::Round_z,
        68 => Opcode::Rsq,
        69 => Opcode::Sample,
        70 => Opcode::SampleC,
        71 => Opcode::SampleCLz,
        72 => Opcode::SampleL,
        73 => Opcode::SampleD,
        74 => Opcode::SampleB,
        75 => Opcode::Sqrt,
        76 => Opcode::Switch,
        77 => Opcode::Sincos,
        78 => Opcode::UDiv,
        79 => Opcode::ULt,
        80 => Opcode::UGe,
        81 => Opcode::UMul,
        82 => Opcode::UMad,
        83 => Opcode::UMax,
        84 => Opcode::UMin,
        85 => Opcode::Ushr,
        86 => Opcode::Utof,
        87 => Opcode::Xor,
        88 => Opcode::DclResource,
        89 => Opcode::DclConstantBuffer,
        90 => Opcode::DclSampler,
        91 => Opcode::DclIndexRange,
        92 => Opcode::DclGsOutputPrimitiveTopology,
        93 => Opcode::DclGsInputPrimitive,
        94 => Opcode::DclMaxOutputVertexCount,
        95 => Opcode::DclInput,
        96 => Opcode::DclInputSgv,
        97 => Opcode::DclInputSiv,
        98 => Opcode::DclInputPs,
        99 => Opcode::DclInputPsSgv,
        100 => Opcode::DclInputPsSiv,
        101 => Opcode::DclOutput,
        102 => Opcode::DclOutputSgv,
        103 => Opcode::DclOutputSiv,
        104 => Opcode::DclTemps,
        105 => Opcode::DclIndexableTemp,
        106 => Opcode::DclGlobalFlags,
        108 => Opcode::Lod,
        109 => Opcode::Gather4,
        110 => Opcode::SamplePos,
        111 => Opcode::SampleInfo,
        113 => Opcode::HsDecls,
        114 => Opcode::HsControlPointPhase,
        115 => Opcode::HsForkPhase,
        116 => Opcode::HsJoinPhase,
        117 => Opcode::EmitStream,
        118 => Opcode::CutStream,
        119 => Opcode::EmitThenCutStream,
        120 => Opcode::InterfaceCall,
        121 => Opcode::BufInfo,
        122 => Opcode::Deriv_rtx_coarse,
        123 => Opcode::Deriv_rtx_fine,
        124 => Opcode::Deriv_rty_coarse,
        125 => Opcode::Deriv_rty_fine,
        126 => Opcode::Gather4C,
        127 => Opcode::Gather4Po,
        128 => Opcode::Gather4PoC,
        129 => Opcode::Rcp,
        130 => Opcode::F32tof16,
        131 => Opcode::F16tof32,
        132 => Opcode::Uaddc,
        133 => Opcode::Usubb,
        134 => Opcode::Countbits,
        135 => Opcode::FirstbitHi,
        136 => Opcode::FirstbitLo,
        137 => Opcode::FirstbitShi,
        138 => Opcode::Ubfe,
        139 => Opcode::Ibfe,
        140 => Opcode::Bfi,
        141 => Opcode::Bfrev,
        142 => Opcode::Swapc,
        143 => Opcode::DclStream,
        144 => Opcode::DclFunctionBody,
        145 => Opcode::DclFunctionTable,
        146 => Opcode::DclInterface,
        147 => Opcode::DclInputControlPointCount,
        148 => Opcode::DclOutputControlPointCount,
        149 => Opcode::DclTessDomain,
        150 => Opcode::DclTessPartitioning,
        151 => Opcode::DclTessOutputPrimitive,
        152 => Opcode::DclHsMaxTessFactor,
        153 => Opcode::DclHsForkPhaseInstanceCount,
        154 => Opcode::DclHsJoinPhaseInstanceCount,
        155 => Opcode::DclThreadGroup,
        156 => Opcode::DclUnorderedAccessViewTyped,
        157 => Opcode::DclUnorderedAccessViewRaw,
        158 => Opcode::DclUnorderedAccessViewStructured,
        159 => Opcode::DclThreadGroupSharedMemoryRaw,
        160 => Opcode::DclThreadGroupSharedMemoryStructured,
        161 => Opcode::DclResourceRaw,
        162 => Opcode::DclResourceStructured,
        163 => Opcode::LdUavTyped,
        164 => Opcode::StoreUavTyped,
        165 => Opcode::LdRaw,
        166 => Opcode::StoreRaw,
        167 => Opcode::LdStructured,
        168 => Opcode::StoreStructured,
        169 => Opcode::AtomicAnd,
        170 => Opcode::AtomicOr,
        171 => Opcode::AtomicXor,
        172 => Opcode::AtomicCmpStore,
        173 => Opcode::AtomicIAdd,
        174 => Opcode::AtomicIMax,
        175 => Opcode::AtomicIMin,
        176 => Opcode::AtomicUMax,
        177 => Opcode::AtomicUMin,
        178 => Opcode::ImmAtomicAlloc,
        179 => Opcode::ImmAtomicConsume,
        180 => Opcode::ImmAtomicIAdd,
        181 => Opcode::ImmAtomicAnd,
        182 => Opcode::ImmAtomicOr,
        183 => Opcode::ImmAtomicXor,
        184 => Opcode::ImmAtomicExch,
        185 => Opcode::ImmAtomicCmpExch,
        186 => Opcode::ImmAtomicIMax,
        187 => Opcode::ImmAtomicIMin,
        188 => Opcode::ImmAtomicUMax,
        189 => Opcode::ImmAtomicUMin,
        190 => Opcode::Sync,
        191 => Opcode::Dadd,
        192 => Opcode::Dmax,
        193 => Opcode::Dmin,
        194 => Opcode::Dmul,
        195 => Opcode::Deq,
        196 => Opcode::Dge,
        197 => Opcode::Dlt,
        198 => Opcode::Dne,
        199 => Opcode::Dmov,
        200 => Opcode::Dmovc,
        201 => Opcode::Dtof,
        202 => Opcode::Ftod,
        203 => Opcode::Eval_snapped,
        204 => Opcode::Eval_sampleIndex,
        205 => Opcode::Eval_centroid,
        206 => Opcode::DclGsInstanceCount,
        207 => Opcode::Abort,
        208 => Opcode::DebugBreak,
        210 => Opcode::Ddiv,
        211 => Opcode::Dfma,
        212 => Opcode::Drcp,
        213 => Opcode::Msad,
        214 => Opcode::Dtoi,
        215 => Opcode::Dtou,
        216 => Opcode::Itod,
        _ => Opcode::Utod,
    }
}

/// Every value stands for an opcode, and comes back out of it.
pub proof fn law_opcode_keeps_value(v: u32)
    ensures
        Opcode::of(v).code() == v,
        Opcode::of(v) is Unknown <==> Opcode::unassigned(v),
{
    let op = if Opcode::unassigned(v) {
        Opcode::Unknown(v)
    } else {
        known(v)
    };
    assert(op.code() == v && (op is Unknown <==> Opcode::unassigned(v)));
}

} // verus!
