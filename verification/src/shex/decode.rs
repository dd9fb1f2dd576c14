//! Decoder: raw SHEX/SHDR bytes to the structured form.
use crate::bytes::{le32, read_u32};
use crate::shex::ir::{
    instruction_models, operand_models, system_value_name, system_value_text, ComponentSelect, CustomDataType,
    FlagNames, GsOutputTopology, GsPrimitive, IndexModel, Instruction, InstructionKind, InstructionModel, KindModel,
    Operand, OperandIndex, OperandModel, Operands, Program, ProgramModel, RegisterType, ReturnType, Words,
};
use crate::shex::opcodes::Opcode;
use crate::text::{cat2, cat3, cat7, dec, decimal};
use vstd::prelude::*;

verus! {

/// Why a chunk could not be decoded.
#[derive(Debug, Clone)]
pub struct DecodeError {
    /// What went wrong, in words.
    pub message: String,
}

impl DecodeError {
    /// The error as a line of text.
    pub fn text(&self) -> (r: String)
        ensures
            r@ == "SHEX decode error: "@ + self.message@,
    {
        cat2("SHEX decode error: ", self.message.as_str())
    }
}

/// Whether a bit of a word is set.
pub open spec fn bit(word: u32, n: u32) -> bool {
    (word >> n) & 1 != 0
}

/// How many words are left from a place on.
pub open spec fn left(t: Seq<u32>, pos: nat) -> nat {
    if pos <= t.len() {
        (t.len() - pos) as nat
    } else {
        0
    }
}

/// The word at a place, nought where the words end before it.
pub open spec fn word(t: Seq<u32>, i: int) -> u32 {
    if i < t.len() {
        t[i]
    } else {
        0
    }
}

/// The word that ends an instruction of three words or more, nought for a shorter one.
pub open spec fn trailer(t: Seq<u32>) -> u32 {
    if t.len() >= 3 {
        t.last()
    } else {
        0
    }
}

/// The words before the one that ends an instruction of three words or more.
pub open spec fn before_trailer(t: Seq<u32>) -> Seq<u32> {
    if t.len() >= 3 {
        t.drop_last()
    } else {
        t
    }
}

/// Up to `count` words from a place on.
pub open spec fn words_from(t: Seq<u32>, from: int, count: int) -> Seq<u32> {
    if from >= t.len() {
        Seq::empty()
    } else if from + count >= t.len() {
        t.subrange(from, t.len() as int)
    } else {
        t.subrange(from, from + count)
    }
}

/// A four-bit two's complement number.
pub open spec fn sign4(val: u32) -> i8 {
    if val >= 8 {
        (val - 16) as i8
    } else {
        val as i8
    }
}

/// The components that an operand token selects.
pub open spec fn components_of(token: u32) -> ComponentSelect {
    let count = token & 0x3;
    let mode = (token >> 2) & 0x3;
    if count == 0 {
        ComponentSelect::ZeroComponent
    } else if count == 1 {
        ComponentSelect::OneComponent
    } else if count == 2 {
        if mode == 0 {
            ComponentSelect::Mask(((token >> 4) & 0xF) as u8)
        } else if mode == 1 {
            ComponentSelect::Swizzle(
                [
                    ((token >> 4) & 0x3) as u8,
                    ((token >> 6) & 0x3) as u8,
                    ((token >> 8) & 0x3) as u8,
                    ((token >> 10) & 0x3) as u8,
                ],
            )
        } else if mode == 2 {
            ComponentSelect::Scalar(((token >> 4) & 0x3) as u8)
        } else {
            ComponentSelect::ZeroComponent
        }
    } else {
        ComponentSelect::ZeroComponent
    }
}

/// How many words of immediate data follow an operand token without indices.
pub open spec fn immediate_words(kind: u32, count: u32) -> nat {
    let each: nat = if count == 0 {
        0
    } else if count == 1 {
        1
    } else {
        4
    };
    if kind == 4 {
        each
    } else if kind == 5 {
        each * 2
    } else {
        0
    }
}

/// The operand that stands for nothing.
pub open spec fn no_operand() -> OperandModel {
    OperandModel {
        reg_type: RegisterType::Unknown(0),
        components: ComponentSelect::ZeroComponent,
        negate: false,
        abs: false,
        indices: Seq::empty(),
        immediate_values: Seq::empty(),
    }
}

/// The operand at a place, and how many words it takes.
pub open spec fn operand_at(t: Seq<u32>, pos: nat) -> (OperandModel, nat)
    decreases left(t, pos), 0nat,
{
    if pos >= t.len() {
        (no_operand(), 0)
    } else {
        let token = t[pos as int];
        let kind = (token >> 12) & 0xFF;
        let dims = (token >> 20) & 0x3;
        let extended = bit(token, 31) && pos + 1 < t.len();
        let head: nat = if extended {
            2
        } else {
            1
        };
        let lead = OperandModel {
            reg_type: RegisterType::of(kind),
            components: components_of(token),
            negate: extended && bit(t[pos as int + 1], 6),
            abs: extended && bit(t[pos as int + 1], 7),
            indices: Seq::empty(),
            immediate_values: Seq::empty(),
        };
        if dims == 0 {
            let wanted = immediate_words(kind, components_of(token).count());
            let held = words_from(t, (pos + head) as int, wanted as int);
            (OperandModel { immediate_values: held, ..lead }, head + held.len())
        } else {
            let (i0, n0) = index_at(t, pos + head, (token >> 22) & 0x7);
            if dims == 1 {
                (OperandModel { indices: seq![i0], ..lead }, head + n0)
            } else {
                let (i1, n1) = index_at(t, pos + head + n0, (token >> 25) & 0x7);
                if dims == 2 {
                    (OperandModel { indices: seq![i0, i1], ..lead }, head + n0 + n1)
                } else {
                    let (i2, n2) = index_at(t, pos + head + n0 + n1, (token >> 28) & 0x7);
                    (OperandModel { indices: seq![i0, i1, i2], ..lead }, head + n0 + n1 + n2)
                }
            }
        }
    }
}

/// The index level at a place in the given representation, and how many words it takes.
pub open spec fn index_at(t: Seq<u32>, pos: nat, repr: u32) -> (IndexModel, nat)
    decreases left(t, pos), 1nat,
{
    if repr == 0 {
        if pos < t.len() {
            (IndexModel::Imm32(t[pos as int]), 1)
        } else {
            (IndexModel::Imm32(0), 0)
        }
    } else if repr == 1 {
        if pos + 1 < t.len() {
            (IndexModel::Imm64((t[pos as int] as u64) | ((t[pos as int + 1] as u64) << 32)), 2)
        } else {
            (IndexModel::Imm32(0), 0)
        }
    } else if repr == 2 {
        let (sub, n) = operand_at(t, pos);
        (IndexModel::Relative(Box::new(sub)), n)
    } else if repr == 3 {
        if pos < t.len() {
            let (sub, n) = operand_at(t, pos + 1);
            (IndexModel::RelativePlusImm(t[pos as int], Box::new(sub)), 1 + n)
        } else {
            (IndexModel::Imm32(0), 0)
        }
    } else {
        (IndexModel::Imm32(0), 0)
    }
}

/// The operands from a place to the end.
pub open spec fn operands_from(t: Seq<u32>, pos: nat) -> Seq<OperandModel>
    decreases left(t, pos),
{
    if pos >= t.len() {
        Seq::empty()
    } else {
        let (op, n) = operand_at(t, pos);
        if n == 0 {
            Seq::empty()
        } else {
            seq![op] + operands_from(t, pos + n)
        }
    }
}

/// What the chain of extended tokens says: sample offsets, resource dimension, resource return type.
pub struct Extended {
    pub tex_offsets: Option<[i8; 3]>,
    pub resource_dim: Option<u32>,
    pub resource_return_type: Option<u32>,
}

/// What one extended token adds to what is known.
pub open spec fn extended_by(known: Extended, ext: u32) -> Extended {
    let kind = ext & 0x3F;
    if kind == 1 {
        Extended {
            tex_offsets: Some([sign4((ext >> 9) & 0xF), sign4((ext >> 13) & 0xF), sign4((ext >> 17) & 0xF)]),
            ..known
        }
    } else if kind == 2 {
        Extended { resource_dim: Some(ext), ..known }
    } else if kind == 3 {
        Extended { resource_return_type: Some(ext), ..known }
    } else {
        known
    }
}

/// What the extended tokens from a place on add to what is known. Bit 31 of each says whether another
/// follows.
pub open spec fn extended_from(t: Seq<u32>, at: nat, known: Extended) -> Extended
    decreases left(t, at),
{
    if at >= t.len() {
        known
    } else {
        let next = extended_by(known, t[at as int]);
        if bit(t[at as int], 31) {
            extended_from(t, at + 1, next)
        } else {
            next
        }
    }
}

/// What the extended tokens of an instruction say.
pub open spec fn extended_of(t: Seq<u32>) -> Extended {
    let nothing = Extended { tex_offsets: None, resource_dim: None, resource_return_type: None };
    if bit(t[0], 31) && t.len() >= 2 {
        extended_from(t, 1, nothing)
    } else {
        nothing
    }
}

/// The place behind a chain of extended tokens.
pub open spec fn behind_extended(t: Seq<u32>, at: nat) -> nat
    decreases left(t, at),
{
    if at < t.len() && bit(t[at as int], 31) {
        behind_extended(t, at + 1)
    } else {
        at + 1
    }
}

/// Where the operands of an instruction start.
pub open spec fn operands_start(t: Seq<u32>) -> nat {
    if bit(t[0], 31) {
        behind_extended(t, 1)
    } else {
        1
    }
}

/// The rows of four words that fill an immediate constant buffer.
pub open spec fn rows_of(t: Seq<u32>) -> Seq<[u32; 4]> {
    if t.len() > 2 {
        Seq::new(
            ((t.len() - 2) / 4) as nat,
            |i: int| [t[2 + 4 * i], t[3 + 4 * i], t[4 + 4 * i], t[5 + 4 * i]],
        )
    } else {
        Seq::empty()
    }
}

/// The list with a name put behind it, where the bit that stands for the name is set.
pub open spec fn with_flag(list: Seq<Seq<char>>, bits: u32, n: u32, name: Seq<char>) -> Seq<Seq<char>> {
    if bits & (1u32 << n) != 0 {
        list.push(name)
    } else {
        list
    }
}

/// The names of the global flags that are set.
pub open spec fn flag_list(bits: u32) -> Seq<Seq<char>> {
    let l = Seq::<Seq<char>>::empty();
    let l = with_flag(l, bits, 0, "refactoringAllowed"@);
    let l = with_flag(l, bits, 1, "enableDoublePrecisionFloatOps"@);
    let l = with_flag(l, bits, 2, "forceEarlyDepthStencil"@);
    let l = with_flag(l, bits, 3, "enableRawAndStructuredBuffers"@);
    let l = with_flag(l, bits, 4, "skipOptimization"@);
    let l = with_flag(l, bits, 5, "enableMinPrecision"@);
    let l = with_flag(l, bits, 6, "enable11_1DoubleExtensions"@);
    with_flag(l, bits, 7, "enable11_1ShaderExtensions"@)
}

/// The name of an interpolation mode.
pub open spec fn interpolation_text(mode: u32) -> Seq<char> {
    if mode == 0 { "undefined"@ }
    else if mode == 1 { "constant"@ }
    else if mode == 2 { "linear"@ }
    else if mode == 3 { "linearCentroid"@ }
    else if mode == 4 { "linearNoperspective"@ }
    else if mode == 5 { "linearNoperspectiveCentroid"@ }
    else if mode == 6 { "linearSample"@ }
    else if mode == 7 { "linearNoperspectiveSample"@ }
    else { "?interp"@ }
}

/// The name of a resource dimension.
pub open spec fn dimension_text(dim: u32) -> Seq<char> {
    if dim == 1 { "buffer"@ }
    else if dim == 2 { "texture1d"@ }
    else if dim == 3 { "texture2d"@ }
    else if dim == 4 { "texture2dms"@ }
    else if dim == 5 { "texture3d"@ }
    else if dim == 6 { "texturecube"@ }
    else if dim == 7 { "texture1darray"@ }
    else if dim == 8 { "texture2darray"@ }
    else if dim == 9 { "texture2dmsarray"@ }
    else if dim == 10 { "texturecubearray"@ }
    else { "unknown"@ }
}

/// The return types that a word of four four-bit fields names.
pub open spec fn return_types(rt: u32) -> [ReturnType; 4] {
    [
        ReturnType::of(rt & 0xF),
        ReturnType::of((rt >> 4) & 0xF),
        ReturnType::of((rt >> 8) & 0xF),
        ReturnType::of((rt >> 12) & 0xF),
    ]
}

/// The return types that end a declaration of three words or more.
pub open spec fn trailing_return_types(t: Seq<u32>) -> [ReturnType; 4] {
    if t.len() > 2 {
        return_types(t.last())
    } else {
        [ReturnType::Unknown(0), ReturnType::Unknown(0), ReturnType::Unknown(0), ReturnType::Unknown(0)]
    }
}

/// The name of a sampler mode.
pub open spec fn sampler_text(mode: u32) -> Seq<char> {
    if mode == 0 { "default"@ }
    else if mode == 1 { "comparison"@ }
    else if mode == 2 { "mono"@ }
    else { "?"@ }
}

/// The name of a constant buffer's access pattern.
pub open spec fn access_text(dynamic: bool) -> Seq<char> {
    if dynamic { "dynamicIndexed"@ } else { "immediateIndexed"@ }
}

/// The name of a tessellator domain.
pub open spec fn domain_text(v: u32) -> Seq<char> {
    if v == 0 { "undefined"@ }
    else if v == 1 { "isoline"@ }
    else if v == 2 { "tri"@ }
    else if v == 3 { "quad"@ }
    else { "?"@ }
}

/// The name of a tessellator partitioning.
pub open spec fn partitioning_text(v: u32) -> Seq<char> {
    if v == 0 { "undefined"@ }
    else if v == 1 { "integer"@ }
    else if v == 2 { "pow2"@ }
    else if v == 3 { "fractional_odd"@ }
    else if v == 4 { "fractional_even"@ }
    else { "?"@ }
}

/// The name of a tessellator output primitive.
pub open spec fn output_primitive_text(v: u32) -> Seq<char> {
    if v == 0 { "undefined"@ }
    else if v == 1 { "point"@ }
    else if v == 2 { "line"@ }
    else if v == 3 { "triangle_cw"@ }
    else if v == 4 { "triangle_ccw"@ }
    else { "?"@ }
}

/// The opcode tests a condition.
pub open spec fn conditional(op: Opcode) -> bool {
    op is If || op is Breakc || op is Callc || op is Continuec || op is Discard || op is Retc
}

/// The opcode declares an input.
pub open spec fn declares_input(op: Opcode) -> bool {
    op is DclInput || op is DclInputSgv || op is DclInputSiv || op is DclInputPs || op is DclInputPsSgv
        || op is DclInputPsSiv
}

/// The opcode declares an input of a pixel shader.
pub open spec fn declares_pixel_input(op: Opcode) -> bool {
    op is DclInputPs || op is DclInputPsSiv || op is DclInputPsSgv
}

/// The opcode declares an input with a system value.
pub open spec fn declares_input_value(op: Opcode) -> bool {
    op is DclInputSgv || op is DclInputSiv || op is DclInputPsSgv || op is DclInputPsSiv
}

/// The opcode declares an output.
pub open spec fn declares_output(op: Opcode) -> bool {
    op is DclOutput || op is DclOutputSgv || op is DclOutputSiv
}

/// The opcode declares an output with a system value.
pub open spec fn declares_output_value(op: Opcode) -> bool {
    op is DclOutputSgv || op is DclOutputSiv
}

/// The payload of an instruction with the given opcode and words.
pub open spec fn kind_of(t: Seq<u32>, op: Opcode) -> KindModel {
    let field = t[0] >> 11;
    if op is CustomData {
        let subtype = CustomDataType::of(field & 0x1F);
        let values = if subtype is ImmediateConstantBuffer { rows_of(t) } else { Seq::empty() };
        KindModel::CustomData {
            subtype,
            values,
            raw_dword_count: t.len() as usize,
            rest: words_from(t, (2 + 4 * values.len()) as int, t.len() as int),
        }
    } else if op is DclGlobalFlags {
        KindModel::DclGlobalFlags { flags: flag_list(field & 0x1FFF) }
    } else if declares_input(op) {
        let valued = declares_input_value(op) && t.len() >= 3;
        KindModel::DclInput {
            interpolation: if declares_pixel_input(op) { Some(interpolation_text(field & 0xF)) } else { None },
            system_value: if valued { Some(system_value_text(t.last())) } else { None },
            operands: operands_from(if valued { t.drop_last() } else { t }, 1),
        }
    } else if declares_output(op) {
        let valued = declares_output_value(op) && t.len() >= 3;
        KindModel::DclOutput {
            system_value: if valued { Some(system_value_text(t.last())) } else { None },
            operands: operands_from(if valued { t.drop_last() } else { t }, 1),
        }
    } else if op is DclResource {
        KindModel::DclResource {
            dimension: dimension_text(field & 0x1F),
            sample_count: (t[0] >> 16) & 0x7F,
            return_type: trailing_return_types(t),
            operands: operands_from(before_trailer(t), 1),
        }
    } else if op is DclUnorderedAccessViewTyped {
        KindModel::DclUavTyped {
            dimension: dimension_text(field & 0x1F),
            flags: (t[0] >> 16) & 0xFF,
            return_type: trailing_return_types(t),
            operands: operands_from(before_trailer(t), 1),
        }
    } else if op is DclUnorderedAccessViewRaw {
        KindModel::DclUavRaw { flags: (t[0] >> 16) & 0xFF, operands: operands_from(t, 1) }
    } else if op is DclUnorderedAccessViewStructured {
        KindModel::DclUavStructured {
            flags: (t[0] >> 16) & 0xFF,
            stride: trailer(t),
            operands: operands_from(before_trailer(t), 1),
        }
    } else if op is DclResourceRaw {
        KindModel::DclResourceRaw { operands: operands_from(t, 1) }
    } else if op is DclResourceStructured {
        KindModel::DclResourceStructured { stride: trailer(t), operands: operands_from(before_trailer(t), 1) }
    } else if op is DclIndexRange {
        KindModel::DclIndexRange { operands: operands_from(before_trailer(t), 1), count: trailer(t) }
    } else if op is DclSampler {
        KindModel::DclSampler { mode: sampler_text(field & 0xF), operands: operands_from(t, 1) }
    } else if op is DclConstantBuffer {
        KindModel::DclConstantBuffer { access: access_text(field & 1 != 0), operands: operands_from(t, 1) }
    } else if op is DclTemps {
        KindModel::DclTemps { count: word(t, 1) }
    } else if op is DclIndexableTemp {
        if t.len() >= 4 {
            KindModel::DclIndexableTemp { reg: t[1], size: t[2], components: t[3] }
        } else {
            KindModel::DclIndexableTemp { reg: 0, size: 0, components: 0 }
        }
    } else if op is DclGsInputPrimitive {
        KindModel::DclGsInputPrimitive { primitive: GsPrimitive::of(field & 0x3F) }
    } else if op is DclGsOutputPrimitiveTopology {
        KindModel::DclGsOutputTopology { topology: GsOutputTopology::of(field & 0xF) }
    } else if op is DclMaxOutputVertexCount {
        KindModel::DclMaxOutputVertexCount { count: word(t, 1) }
    } else if op is DclGsInstanceCount {
        KindModel::DclGsInstanceCount { count: word(t, 1) }
    } else if op is DclOutputControlPointCount {
        KindModel::DclOutputControlPointCount { count: field & 0x3F }
    } else if op is DclInputControlPointCount {
        KindModel::DclInputControlPointCount { count: field & 0x3F }
    } else if op is DclTessDomain {
        KindModel::DclTessDomain { domain: domain_text(field & 0x3) }
    } else if op is DclTessPartitioning {
        KindModel::DclTessPartitioning { partitioning: partitioning_text(field & 0x7) }
    } else if op is DclTessOutputPrimitive {
        KindModel::DclTessOutputPrimitive { primitive: output_primitive_text(field & 0x7) }
    } else if op is DclHsMaxTessFactor {
        KindModel::DclHsMaxTessFactor { value: word(t, 1) }
    } else if op is DclHsForkPhaseInstanceCount || op is DclHsJoinPhaseInstanceCount {
        KindModel::DclHsForkPhaseInstanceCount { count: word(t, 1) }
    } else if op is DclThreadGroup {
        KindModel::DclThreadGroup { x: word(t, 1), y: word(t, 2), z: word(t, 3) }
    } else if op is DclFunctionBody {
        KindModel::DclFunctionBody { index: word(t, 1) }
    } else if op is DclFunctionTable {
        KindModel::DclFunctionTable { table_index: word(t, 1), body_indices: words_from(t, 3, word(t, 2) as int) }
    } else if op is DclInterface {
        KindModel::DclInterface {
            interface_index: word(t, 1),
            num_call_sites: word(t, 2),
            table_indices: words_from(t, 4, word(t, 3) as int),
        }
    } else if op is HsDecls || op is HsControlPointPhase || op is HsForkPhase || op is HsJoinPhase {
        KindModel::HsPhase
    } else {
        KindModel::Generic { operands: operands_from(t, operands_start(t)) }
    }
}

/// The instruction with the given opcode and words.
pub open spec fn instruction_of(t: Seq<u32>, op: Opcode) -> InstructionModel {
    let ext = extended_of(t);
    InstructionModel {
        opcode: op,
        saturate: !(op is Sync) && bit(t[0], 13),
        test_nonzero: conditional(op) && bit(t[0], 18),
        precise_mask: ((t[0] >> 19) & 0xF) as u8,
        resinfo_return_type: if op is Resinfo { Some((t[0] >> 11) & 0x3) } else { None },
        sync_flags: if op is Sync { ((t[0] >> 11) & 0xF) as u8 } else { 0 },
        tex_offsets: ext.tex_offsets,
        resource_dim: ext.resource_dim,
        resource_return_type: ext.resource_return_type,
        kind: kind_of(t, op),
    }
}

/// How many words the instruction at a place takes.
pub open spec fn length_at(data: Seq<u8>, offset: nat, end: nat) -> nat {
    let token = le32(data, offset as int);
    if Opcode::of(token & 0x7FF) is CustomData {
        if offset + 8 <= end {
            le32(data, offset as int + 4) as nat
        } else {
            0
        }
    } else if (token >> 24) & 0x7F == 0 {
        1
    } else {
        ((token >> 24) & 0x7F) as nat
    }
}

/// The words at a place.
pub open spec fn words_at(data: Seq<u8>, offset: nat, count: nat) -> Seq<u32> {
    Seq::new(count, |i: int| le32(data, offset + 4 * i))
}

/// The warning on an instruction of no length.
pub open spec fn zero_length_warning(offset: nat) -> Seq<char> {
    "instruction at byte offset "@ + dec(offset) + " has zero length, stopping"@
}

/// The warning on an instruction that the chunk ends within.
pub open spec fn past_end_warning(offset: nat, needs: nat, available: nat) -> Seq<char> {
    "instruction at byte offset "@ + dec(offset) + " extends past end of chunk (needs "@ + dec(needs)
        + " bytes, only "@ + dec(available) + " available)"@
}

/// The warning on a header that claims more than the chunk holds.
pub open spec fn short_chunk_warning(dwords: nat, len: nat) -> Seq<char> {
    "SHEX header claims "@ + dec(dwords) + " dwords ("@ + dec(dwords * 4) + " bytes) but chunk is only "@ + dec(len)
        + " bytes"@
}

/// The instructions from a place to the end, and the warning that stopped them, where one did.
pub open spec fn stream(data: Seq<u8>, offset: nat, end: nat) -> (Seq<InstructionModel>, Seq<Seq<char>>)
    decreases end - offset,
{
    if offset + 4 > end {
        (Seq::empty(), Seq::empty())
    } else {
        let n = length_at(data, offset, end);
        if n == 0 {
            (Seq::empty(), seq![zero_length_warning(offset)])
        } else if offset + n * 4 > end {
            (Seq::empty(), seq![past_end_warning(offset, n * 4, (end - offset) as nat)])
        } else {
            let op = Opcode::of(le32(data, offset as int) & 0x7FF);
            let (rest, warnings) = stream(data, offset + n * 4, end);
            (seq![instruction_of(words_at(data, offset, n), op)] + rest, warnings)
        }
    }
}

/// The name of a shader stage.
pub open spec fn stage_text(v: u32) -> Seq<char> {
    if v == 0 { "ps"@ }
    else if v == 1 { "vs"@ }
    else if v == 2 { "gs"@ }
    else if v == 3 { "hs"@ }
    else if v == 4 { "ds"@ }
    else if v == 5 { "cs"@ }
    else { "unknown"@ }
}

/// The place where the instructions of a chunk end.
pub open spec fn stream_end(data: Seq<u8>) -> nat {
    let claimed = le32(data, 4) as nat * 4;
    if claimed <= data.len() {
        claimed
    } else {
        data.len()
    }
}

/// The program that a chunk of eight bytes or more holds.
pub open spec fn program_of(data: Seq<u8>, fourcc: [u8; 4]) -> ProgramModel {
    let version = le32(data, 0);
    let dwords = le32(data, 4) as nat;
    let early = if dwords * 4 > data.len() {
        seq![short_chunk_warning(dwords, data.len())]
    } else {
        Seq::empty()
    };
    let (instructions, late) = stream(data, 8, stream_end(data));
    ProgramModel {
        shader_type: stage_text((version >> 16) & 0xFFFF),
        major_version: (version >> 4) & 0xF,
        minor_version: version & 0xF,
        instructions,
        warnings: early + late,
        fourcc,
    }
}

/// The message on a chunk that is too short for its header.
pub open spec fn too_short_message(len: nat) -> Seq<char> {
    "SHEX/SHDR chunk too short: "@ + dec(len) + " bytes (minimum 8)"@
}

/// Decode a SHEX/SHDR chunk.
pub fn decode(data: &[u8]) -> (r: Result<Program, DecodeError>)
    ensures
        match r {
            Ok(p) => data@.len() >= 8 && p@ == program_of(data@, [0x53u8, 0x48, 0x45, 0x58]),
            Err(e) => data@.len() < 8 && e.message@ == too_short_message(data@.len()),
        },
{
    decode_with_fourcc(data, [0x53u8, 0x48, 0x45, 0x58])
}

/// Decode a SHEX/SHDR chunk, keeping the FourCC that it came under.
pub fn decode_with_fourcc(data: &[u8], fourcc: [u8; 4]) -> (r: Result<Program, DecodeError>)
    ensures
        match r {
            Ok(p) => data@.len() >= 8 && p@ == program_of(data@, fourcc),
            Err(e) => data@.len() < 8 && e.message@ == too_short_message(data@.len()),
        },
{
    let too_short = data.len() < 8;
    let version_token: u32 = match read_u32(data, 0) {
        Some(v) => v,
        None => 0,
    };
    let length_dwords: u32 = match read_u32(data, 4) {
        Some(v) => v,
        None => 0,
    };
    if too_short {
        let len = decimal(data.len() as u64);
        return Err(DecodeError { message: cat3("SHEX/SHDR chunk too short: ", len.as_str(), " bytes (minimum 8)") });
    }
    let shader_type: &'static str = match (version_token >> 16) & 0xFFFF {
        0 => "ps",
        1 => "vs",
        2 => "gs",
        3 => "hs",
        4 => "ds",
        5 => "cs",
        _ => "unknown",
    };
    let mut instructions: Vec<Instruction> = Vec::new();
    let mut warnings: Vec<String> = Vec::new();
    let len: u64 = data.len() as u64;
    let claimed: u64 = length_dwords as u64 * 4;
    let end: u64 = if claimed <= len {
        claimed
    } else {
        len
    };
    if claimed > len {
        let a = decimal(length_dwords as u64);
        let b = decimal(claimed);
        let c = decimal(len);
        warnings.push(
            cat7(
                "SHEX header claims ",
                a.as_str(),
                " dwords (",
                b.as_str(),
                " bytes) but chunk is only ",
                c.as_str(),
                " bytes",
            ),
        );
    }
    let ghost early = crate::text::views(warnings@);
    proof {
        assert(early =~= if claimed > len {
            seq![short_chunk_warning(length_dwords as nat, data@.len())]
        } else {
            Seq::empty()
        });
    }
    let mut offset: u64 = 8;
    let mut going = true;
    let ghost whole = stream(data@, 8, end as nat);
    proof {
        assert(instruction_models(instructions@) + whole.0 =~= whole.0);
        assert(crate::text::views(warnings@) + whole.1 =~= early + whole.1);
    }
    while going && offset + 4 <= end
        invariant
            end <= len == data@.len(),
            end <= 0x4_0000_0000,
            offset <= 0x8_0000_0000,
            going ==> instruction_models(instructions@) + stream(data@, offset as nat, end as nat).0 == whole.0,
            going ==> crate::text::views(warnings@) + stream(data@, offset as nat, end as nat).1 == early + whole.1,
            !going ==> instruction_models(instructions@) == whole.0,
            !going ==> crate::text::views(warnings@) == early + whole.1,
        decreases (if going { 1int } else { 0int }), end - offset,
    {
        let token: u32 = match read_u32(data, offset) {
            Some(v) => v,
            None => 0,
        };
        let op = Opcode::from_u32(token & 0x7FF);
        let instr_len: u64 = instruction_length(token, op, data, offset, end);
        let ghost instructions0 = instruction_models(instructions@);
        let ghost warnings0 = crate::text::views(warnings@);
        if instr_len == 0 {
            let at = decimal(offset);
            let text = cat3("instruction at byte offset ", at.as_str(), " has zero length, stopping");
            warnings.push(text);
            going = false;
            proof {
                assert(crate::text::views(warnings@) =~= warnings0.push(zero_length_warning(offset as nat)));
                assert(crate::text::views(warnings@) =~= warnings0 + seq![zero_length_warning(offset as nat)]);
                assert(instructions0 + Seq::<InstructionModel>::empty() =~= instructions0);
            }
        } else if offset + instr_len * 4 > end {
            let at = decimal(offset);
            let needs = decimal(instr_len * 4);
            let available = decimal(end - offset);
            let text = cat7(
                "instruction at byte offset ",
                at.as_str(),
                " extends past end of chunk (needs ",
                needs.as_str(),
                " bytes, only ",
                available.as_str(),
                " available)",
            );
            warnings.push(text);
            going = false;
            proof {
                let w = past_end_warning(offset as nat, (instr_len * 4) as nat, (end - offset) as nat);
                assert(crate::text::views(warnings@) =~= warnings0 + seq![w]);
                assert(instructions0 + Seq::<InstructionModel>::empty() =~= instructions0);
            }
        } else {
            let mut tokens: Vec<u32> = Vec::new();
            let mut i: u64 = 0;
            while i < instr_len
                invariant
                    i <= instr_len,
                    offset + instr_len * 4 <= end <= len == data@.len(),
                    tokens@ == words_at(data@, offset as nat, i as nat),
                decreases instr_len - i,
            {
                let w: u32 = match read_u32(data, offset + i * 4) {
                    Some(v) => v,
                    None => 0,
                };
                tokens.push(w);
                i = i + 1;
                proof {
                    assert(tokens@ =~= words_at(data@, offset as nat, i as nat));
                }
            }
            let instruction = decode_instruction(tokens.as_slice(), op);
            instructions.push(instruction);
            proof {
                let rest = stream(data@, (offset + instr_len * 4) as nat, end as nat);
                let one = instruction@;
                assert(instruction_models(instructions@) =~= instructions0.push(one));
                assert(instructions0.push(one) + rest.0 =~= instructions0 + (seq![one] + rest.0));
            }
            offset = offset + instr_len * 4;
        }
    }
    proof {
        if going {
            assert(instruction_models(instructions@) + Seq::<InstructionModel>::empty() =~= instruction_models(
                instructions@,
            ));
            assert(crate::text::views(warnings@) + Seq::<Seq<char>>::empty() =~= crate::text::views(warnings@));
        }
    }
    Ok(
        Program {
            shader_type,
            major_version: (version_token >> 4) & 0xF,
            minor_version: version_token & 0xF,
            instructions,
            warnings,
            fourcc,
        },
    )
}

fn instruction_length(token: u32, op: Opcode, data: &[u8], offset: u64, end: u64) -> (r: u64)
    requires
        offset + 4 <= end <= data@.len(),
        end <= 0x4_0000_0000,
        token == le32(data@, offset as int),
        op == Opcode::of(token & 0x7FF),
    ensures
        r == length_at(data@, offset as nat, end as nat),
        r <= u32::MAX,
{
    if op == Opcode::CustomData {
        if offset + 8 <= end {
            return match read_u32(data, offset + 4) {
                Some(v) => v as u64,
                None => 0,
            };
        }
        return 0;
    }
    let len: u32 = (token >> 24) & 0x7F;
    if len == 0 {
        1
    } else {
        len as u64
    }
}

proof fn lemma_fields_fit(x: u32)
    by (bit_vector)
    ensures
        x & 0xF < 16,
        x & 0x3 < 4,
{
}

fn set(word: u32, n: u32) -> (r: bool)
    requires
        n < 32,
    ensures
        r == bit(word, n),
{
    (word >> n) & 1 != 0
}

fn is_conditional(op: Opcode) -> (r: bool)
    ensures
        r == conditional(op),
{
    matches!(
        op,
        Opcode::If | Opcode::Breakc | Opcode::Callc | Opcode::Continuec | Opcode::Discard | Opcode::Retc
    )
}

fn decode_instruction(tokens: &[u32], op: Opcode) -> (r: Instruction)
    requires
        tokens@.len() > 0,
    ensures
        r@ == instruction_of(tokens@, op),
{
    let token0: u32 = tokens[0];
    let saturate = op != Opcode::Sync && set(token0, 13);
    let test_nonzero = is_conditional(op) && set(token0, 18);
    let precise_mask: u8 = ((token0 >> 19) & 0xF) as u8;
    let resinfo_return_type: Option<u32> = if op == Opcode::Resinfo {
        Some((token0 >> 11) & 0x3)
    } else {
        None
    };
    let sync_flags: u8 = if op == Opcode::Sync {
        ((token0 >> 11) & 0xF) as u8
    } else {
        0
    };
    let ext = decode_extended_tokens(tokens);
    let kind = decode_kind(tokens, op);
    Instruction {
        opcode: op,
        saturate,
        test_nonzero,
        precise_mask,
        resinfo_return_type,
        sync_flags,
        tex_offsets: ext.tex_offsets,
        resource_dim: ext.resource_dim,
        resource_return_type: ext.resource_return_type,
        kind,
    }
}

fn word_or_zero(tokens: &[u32], i: usize) -> (r: u32)
    ensures
        r == word(tokens@, i as int),
{
    if i < tokens.len() {
        tokens[i]
    } else {
        0
    }
}

#[verifier::rlimit(60)]
#[verifier::spinoff_prover]
fn decode_kind(tokens: &[u32], op: Opcode) -> (r: InstructionKind)
    requires
        tokens@.len() > 0,
    ensures
        r@ == kind_of(tokens@, op),
{
    let token0: u32 = tokens[0];
    match op {
        Opcode::CustomData => decode_custom_data(tokens),
        Opcode::DclGlobalFlags => decode_dcl_global_flags(token0),
        Opcode::DclInput
        | Opcode::DclInputSgv
        | Opcode::DclInputSiv
        | Opcode::DclInputPs
        | Opcode::DclInputPsSgv
        | Opcode::DclInputPsSiv => decode_dcl_input(tokens, op),
        Opcode::DclOutput | Opcode::DclOutputSgv | Opcode::DclOutputSiv => decode_dcl_output(tokens, op),
        Opcode::DclResource => decode_dcl_resource(tokens),
        Opcode::DclUnorderedAccessViewTyped => decode_dcl_uav_typed(tokens),
        Opcode::DclUnorderedAccessViewRaw => InstructionKind::DclUavRaw {
            flags: (token0 >> 16) & 0xFF,
            operands: decode_operands(tokens, 1),
        },
        Opcode::DclUnorderedAccessViewStructured => decode_dcl_uav_structured(tokens),
        Opcode::DclResourceRaw => InstructionKind::DclResourceRaw { operands: decode_operands(tokens, 1) },
        Opcode::DclResourceStructured => decode_dcl_resource_structured(tokens),
        Opcode::DclIndexRange => decode_dcl_index_range(tokens),
        Opcode::DclSampler => decode_dcl_sampler(tokens),
        Opcode::DclConstantBuffer => decode_dcl_cb(tokens),
        Opcode::DclTemps => InstructionKind::DclTemps { count: word_or_zero(tokens, 1) },
        Opcode::DclIndexableTemp => decode_dcl_indexable_temp(tokens),
        Opcode::DclGsInputPrimitive => InstructionKind::DclGsInputPrimitive {
            primitive: GsPrimitive::from_raw((token0 >> 11) & 0x3F),
        },
        Opcode::DclGsOutputPrimitiveTopology => InstructionKind::DclGsOutputTopology {
            topology: GsOutputTopology::from_raw((token0 >> 11) & 0xF),
        },
        Opcode::DclMaxOutputVertexCount => InstructionKind::DclMaxOutputVertexCount {
            count: word_or_zero(tokens, 1),
        },
        Opcode::DclGsInstanceCount => InstructionKind::DclGsInstanceCount { count: word_or_zero(tokens, 1) },
        Opcode::DclOutputControlPointCount => InstructionKind::DclOutputControlPointCount {
            count: (token0 >> 11) & 0x3F,
        },
        Opcode::DclInputControlPointCount => InstructionKind::DclInputControlPointCount {
            count: (token0 >> 11) & 0x3F,
        },
        Opcode::DclTessDomain => decode_dcl_tess_domain(token0),
        Opcode::DclTessPartitioning => decode_dcl_tess_partitioning(token0),
        Opcode::DclTessOutputPrimitive => decode_dcl_tess_output_prim(token0),
        Opcode::DclHsMaxTessFactor => InstructionKind::DclHsMaxTessFactor { value: word_or_zero(tokens, 1) },
        Opcode::DclHsForkPhaseInstanceCount | Opcode::DclHsJoinPhaseInstanceCount => {
            InstructionKind::DclHsForkPhaseInstanceCount { count: word_or_zero(tokens, 1) }
        },
        Opcode::DclThreadGroup => InstructionKind::DclThreadGroup {
            x: word_or_zero(tokens, 1),
            y: word_or_zero(tokens, 2),
            z: word_or_zero(tokens, 3),
        },
        Opcode::DclFunctionBody => InstructionKind::DclFunctionBody { index: word_or_zero(tokens, 1) },
        Opcode::DclFunctionTable => decode_dcl_function_table(tokens),
        Opcode::DclInterface => decode_dcl_interface(tokens),
        Opcode::HsDecls | Opcode::HsControlPointPhase | Opcode::HsForkPhase | Opcode::HsJoinPhase => {
            InstructionKind::HsPhase
        },
        _ => decode_generic(tokens),
    }
}

fn decode_custom_data(tokens: &[u32]) -> (r: InstructionKind)
    requires
        tokens@.len() > 0,
    ensures
        r@ == kind_of(tokens@, Opcode::CustomData),
{
    let subtype = CustomDataType::from_u32((tokens[0] >> 11) & 0x1F);
    let mut values: Vec<[u32; 4]> = Vec::new();
    if subtype == CustomDataType::ImmediateConstantBuffer && tokens.len() > 2 {
        let count: usize = (tokens.len() - 2) / 4;
        let mut i: usize = 0;
        while i < count
            invariant
                i <= count == (tokens@.len() - 2) / 4,
                tokens@.len() > 2,
                tokens@.len() <= usize::MAX,
                values@ == rows_of(tokens@).take(i as int),
            decreases count - i,
        {
            assert(2 + 4 * i + 3 < tokens@.len());
            let base: usize = 2 + i * 4;
            let row: [u32; 4] = [tokens[base], tokens[base + 1], tokens[base + 2], tokens[base + 3]];
            values.push(row);
            proof {
                assert(rows_of(tokens@).take(i + 1) =~= rows_of(tokens@).take(i as int).push(rows_of(tokens@)[i as int]));
                assert(row =~= rows_of(tokens@)[i as int]);
            }
            i = i + 1;
        }
        proof {
            assert(rows_of(tokens@).take(i as int) =~= rows_of(tokens@));
        }
    }
    let mut rest: Vec<u32> = Vec::new();
    let ghost body = words_from(tokens@, (2 + 4 * values@.len()) as int, tokens@.len() as int);
    if tokens.len() >= 2 {
        let from: usize = 2 + 4 * values.len();
        let mut i: usize = from;
        while i < tokens.len()
            invariant
                from <= i <= tokens@.len(),
                rest@ == tokens@.subrange(from as int, i as int),
            decreases tokens@.len() - i,
        {
            rest.push(tokens[i]);
            i = i + 1;
            proof {
                assert(rest@ =~= tokens@.subrange(from as int, i as int));
            }
        }
    }
    proof {
        assert(rest@ =~= body);
    }
    InstructionKind::CustomData { subtype, values, raw_dword_count: tokens.len(), rest }
}

fn push_flag(list: &mut FlagNames, bits: u32, n: u32, name: &'static str)
    requires
        n < 32,
    ensures
        final(list)@ == with_flag(old(list)@, bits, n, name@),
{
    if bits & (1u32 << n) != 0 {
        list.push(name);
    }
}

fn decode_dcl_global_flags(token: u32) -> (r: InstructionKind)
    ensures
        r@ == (KindModel::DclGlobalFlags { flags: flag_list((token >> 11) & 0x1FFF) }),
{
    let bits: u32 = (token >> 11) & 0x1FFF;
    let mut flags = FlagNames::new();
    push_flag(&mut flags, bits, 0, "refactoringAllowed");
    push_flag(&mut flags, bits, 1, "enableDoublePrecisionFloatOps");
    push_flag(&mut flags, bits, 2, "forceEarlyDepthStencil");
    push_flag(&mut flags, bits, 3, "enableRawAndStructuredBuffers");
    push_flag(&mut flags, bits, 4, "skipOptimization");
    push_flag(&mut flags, bits, 5, "enableMinPrecision");
    push_flag(&mut flags, bits, 6, "enable11_1DoubleExtensions");
    push_flag(&mut flags, bits, 7, "enable11_1ShaderExtensions");
    InstructionKind::DclGlobalFlags { flags }
}

fn interpolation_name(mode: u32) -> (r: &'static str)
    ensures
        r@ == interpolation_text(mode),
{
    match mode {
        0 => "undefined",
        1 => "constant",
        2 => "linear",
        3 => "linearCentroid",
        4 => "linearNoperspective",
        5 => "linearNoperspectiveCentroid",
        6 => "linearSample",
        7 => "linearNoperspectiveSample",
        _ => "?interp",
    }
}

/// The words before the last.
fn without_last(tokens: &[u32]) -> (r: &[u32])
    requires
        tokens@.len() > 0,
    ensures
        r@ == tokens@.drop_last(),
{
    let r = vstd::slice::slice_subrange(tokens, 0, tokens.len() - 1);
    proof {
        assert(r@ =~= tokens@.drop_last());
    }
    r
}

fn decode_dcl_input(tokens: &[u32], op: Opcode) -> (r: InstructionKind)
    requires
        tokens@.len() > 0,
        declares_input(op),
    ensures
        r@ == kind_of(tokens@, op),
{
    let interpolation: Option<&'static str> = if matches!(
        op,
        Opcode::DclInputPs | Opcode::DclInputPsSiv | Opcode::DclInputPsSgv
    ) {
        Some(interpolation_name((tokens[0] >> 11) & 0xF))
    } else {
        None
    };
    // The last word of a declaration with a system value is that value, and no operand starts in it.
    let has_sv = matches!(
        op,
        Opcode::DclInputSgv | Opcode::DclInputSiv | Opcode::DclInputPsSgv | Opcode::DclInputPsSiv
    );
    if has_sv && tokens.len() >= 3 {
        let system_value = Some(system_value_name(tokens[tokens.len() - 1]));
        let operands = decode_operands(without_last(tokens), 1);
        InstructionKind::DclInput { interpolation, system_value, operands }
    } else {
        let operands = decode_operands(tokens, 1);
        InstructionKind::DclInput { interpolation, system_value: None, operands }
    }
}

fn decode_dcl_output(tokens: &[u32], op: Opcode) -> (r: InstructionKind)
    requires
        tokens@.len() > 0,
        declares_output(op),
    ensures
        r@ == kind_of(tokens@, op),
{
    let has_sv = matches!(op, Opcode::DclOutputSgv | Opcode::DclOutputSiv);
    if has_sv && tokens.len() >= 3 {
        let system_value = Some(system_value_name(tokens[tokens.len() - 1]));
        let operands = decode_operands(without_last(tokens), 1);
        InstructionKind::DclOutput { system_value, operands }
    } else {
        let operands = decode_operands(tokens, 1);
        InstructionKind::DclOutput { system_value: None, operands }
    }
}

fn dimension_name(dim: u32) -> (r: &'static str)
    ensures
        r@ == dimension_text(dim),
{
    match dim {
        1 => "buffer",
        2 => "texture1d",
        3 => "texture2d",
        4 => "texture2dms",
        5 => "texture3d",
        6 => "texturecube",
        7 => "texture1darray",
        8 => "texture2darray",
        9 => "texture2dmsarray",
        10 => "texturecubearray",
        _ => "unknown",
    }
}

fn decode_return_types(tokens: &[u32]) -> (r: [ReturnType; 4])
    ensures
        r == trailing_return_types(tokens@),
{
    let r: [ReturnType; 4] = if tokens.len() > 2 {
        let rt: u32 = tokens[tokens.len() - 1];
        [
            ReturnType::from_u32(rt & 0xF),
            ReturnType::from_u32((rt >> 4) & 0xF),
            ReturnType::from_u32((rt >> 8) & 0xF),
            ReturnType::from_u32((rt >> 12) & 0xF),
        ]
    } else {
        [ReturnType::Unknown(0), ReturnType::Unknown(0), ReturnType::Unknown(0), ReturnType::Unknown(0)]
    };
    proof {
        assert(r =~= trailing_return_types(tokens@));
    }
    r
}

/// The operands of a declaration whose last word is no operand, where it has three words or more.
fn decode_before_trailer(tokens: &[u32]) -> (r: Operands)
    requires
        tokens@.len() > 0,
    ensures
        operand_models(r@) == operands_from(before_trailer(tokens@), 1),
{
    if tokens.len() >= 3 {
        decode_operands(without_last(tokens), 1)
    } else {
        decode_operands(tokens, 1)
    }
}

fn last_or_zero(tokens: &[u32]) -> (r: u32)
    ensures
        r == trailer(tokens@),
{
    if tokens.len() >= 3 {
        tokens[tokens.len() - 1]
    } else {
        0
    }
}

fn decode_dcl_resource(tokens: &[u32]) -> (r: InstructionKind)
    requires
        tokens@.len() > 0,
    ensures
        r@ == kind_of(tokens@, Opcode::DclResource),
{
    InstructionKind::DclResource {
        dimension: dimension_name((tokens[0] >> 11) & 0x1F),
        sample_count: (tokens[0] >> 16) & 0x7F,
        return_type: decode_return_types(tokens),
        operands: decode_before_trailer(tokens),
    }
}

fn decode_dcl_uav_typed(tokens: &[u32]) -> (r: InstructionKind)
    requires
        tokens@.len() > 0,
    ensures
        r@ == kind_of(tokens@, Opcode::DclUnorderedAccessViewTyped),
{
    InstructionKind::DclUavTyped {
        dimension: dimension_name((tokens[0] >> 11) & 0x1F),
        flags: (tokens[0] >> 16) & 0xFF,
        return_type: decode_return_types(tokens),
        operands: decode_before_trailer(tokens),
    }
}

fn decode_dcl_uav_structured(tokens: &[u32]) -> (r: InstructionKind)
    requires
        tokens@.len() > 0,
    ensures
        r@ == kind_of(tokens@, Opcode::DclUnorderedAccessViewStructured),
{
    InstructionKind::DclUavStructured {
        flags: (tokens[0] >> 16) & 0xFF,
        stride: last_or_zero(tokens),
        operands: decode_before_trailer(tokens),
    }
}

fn decode_dcl_resource_structured(tokens: &[u32]) -> (r: InstructionKind)
    requires
        tokens@.len() > 0,
    ensures
        r@ == kind_of(tokens@, Opcode::DclResourceStructured),
{
    InstructionKind::DclResourceStructured {
        stride: last_or_zero(tokens),
        operands: decode_before_trailer(tokens),
    }
}

fn decode_dcl_index_range(tokens: &[u32]) -> (r: InstructionKind)
    requires
        tokens@.len() > 0,
    ensures
        r@ == kind_of(tokens@, Opcode::DclIndexRange),
{
    InstructionKind::DclIndexRange { operands: decode_before_trailer(tokens), count: last_or_zero(tokens) }
}

/// Walk the chain of extended tokens and gather what they say.
fn decode_extended_tokens(tokens: &[u32]) -> (r: Extended)
    requires
        tokens@.len() > 0,
    ensures
        r == extended_of(tokens@),
{
    let mut known = Extended { tex_offsets: None, resource_dim: None, resource_return_type: None };
    if !set(tokens[0], 31) || tokens.len() < 2 {
        return known;
    }
    let mut idx: usize = 1;
    let mut going = true;
    while going && idx < tokens.len()
        invariant
            idx <= tokens@.len(),
            going ==> extended_from(tokens@, idx as nat, known) == extended_of(tokens@),
            !going ==> known == extended_of(tokens@),
        decreases (if going { 1int } else { 0int }), tokens@.len() - idx,
    {
        let ext: u32 = tokens[idx];
        let ghost before = known;
        proof {
            lemma_fields_fit(ext >> 9);
            lemma_fields_fit(ext >> 13);
            lemma_fields_fit(ext >> 17);
        }
        match ext & 0x3F {
            1 => {
                known.tex_offsets =
                Some(
                    [
                        sign_extend_4bit((ext >> 9) & 0xF),
                        sign_extend_4bit((ext >> 13) & 0xF),
                        sign_extend_4bit((ext >> 17) & 0xF),
                    ],
                );
            },
            2 => {
                known.resource_dim = Some(ext);
            },
            3 => {
                known.resource_return_type = Some(ext);
            },
            _ => {},
        }
        proof {
            if ext & 0x3F == 1 {
                assert(known.tex_offsets->0 =~= extended_by(before, ext).tex_offsets->0);
            }
            assert(known == extended_by(before, ext));
        }
        if !set(ext, 31) {
            going = false;
        } else {
            idx = idx + 1;
        }
    }
    known
}

/// Sign-extend the low four bits.
fn sign_extend_4bit(val: u32) -> (r: i8)
    requires
        val < 16,
    ensures
        r == sign4(val),
{
    if val >= 8 {
        val as i8 - 16
    } else {
        val as i8
    }
}

fn decode_dcl_sampler(tokens: &[u32]) -> (r: InstructionKind)
    requires
        tokens@.len() > 0,
    ensures
        r@ == kind_of(tokens@, Opcode::DclSampler),
{
    let mode: &'static str = match (tokens[0] >> 11) & 0xF {
        0 => "default",
        1 => "comparison",
        2 => "mono",
        _ => "?",
    };
    InstructionKind::DclSampler { mode, operands: decode_operands(tokens, 1) }
}

fn decode_dcl_cb(tokens: &[u32]) -> (r: InstructionKind)
    requires
        tokens@.len() > 0,
    ensures
        r@ == kind_of(tokens@, Opcode::DclConstantBuffer),
{
    let access: &'static str = if (tokens[0] >> 11) & 1 == 0 {
        "immediateIndexed"
    } else {
        "dynamicIndexed"
    };
    InstructionKind::DclConstantBuffer { access, operands: decode_operands(tokens, 1) }
}

fn decode_dcl_indexable_temp(tokens: &[u32]) -> (r: InstructionKind)
    requires
        tokens@.len() > 0,
    ensures
        r@ == kind_of(tokens@, Opcode::DclIndexableTemp),
{
    if tokens.len() >= 4 {
        InstructionKind::DclIndexableTemp { reg: tokens[1], size: tokens[2], components: tokens[3] }
    } else {
        InstructionKind::DclIndexableTemp { reg: 0, size: 0, components: 0 }
    }
}

fn decode_dcl_tess_domain(token: u32) -> (r: InstructionKind)
    ensures
        r@ == (KindModel::DclTessDomain { domain: domain_text((token >> 11) & 0x3) }),
{
    let domain: &'static str = match (token >> 11) & 0x3 {
        0 => "undefined",
        1 => "isoline",
        2 => "tri",
        3 => "quad",
        _ => "?",
    };
    InstructionKind::DclTessDomain { domain }
}

fn decode_dcl_tess_partitioning(token: u32) -> (r: InstructionKind)
    ensures
        r@ == (KindModel::DclTessPartitioning { partitioning: partitioning_text((token >> 11) & 0x7) }),
{
    let partitioning: &'static str = match (token >> 11) & 0x7 {
        0 => "undefined",
        1 => "integer",
        2 => "pow2",
        3 => "fractional_odd",
        4 => "fractional_even",
        _ => "?",
    };
    InstructionKind::DclTessPartitioning { partitioning }
}

fn decode_dcl_tess_output_prim(token: u32) -> (r: InstructionKind)
    ensures
        r@ == (KindModel::DclTessOutputPrimitive { primitive: output_primitive_text((token >> 11) & 0x7) }),
{
    let primitive: &'static str = match (token >> 11) & 0x7 {
        0 => "undefined",
        1 => "point",
        2 => "line",
        3 => "triangle_cw",
        4 => "triangle_ccw",
        _ => "?",
    };
    InstructionKind::DclTessOutputPrimitive { primitive }
}

/// Up to `count` words from a place on.
fn collect_words(tokens: &[u32], from: usize, count: usize) -> (r: Words)
    ensures
        r@ == words_from(tokens@, from as int, count as int),
{
    let mut r = Words::new();
    if from < tokens.len() {
        let end: usize = if count >= tokens.len() - from {
            tokens.len()
        } else {
            from + count
        };
        let mut i: usize = from;
        while i < end
            invariant
                from <= i <= end <= tokens@.len(),
                r@ == tokens@.subrange(from as int, i as int),
            decreases end - i,
        {
            r.push(tokens[i]);
            i = i + 1;
            proof {
                assert(tokens@.subrange(from as int, i as int) =~= tokens@.subrange(from as int, i - 1).push(
                    tokens@[i - 1],
                ));
            }
        }
    }
    r
}

fn decode_dcl_function_table(tokens: &[u32]) -> (r: InstructionKind)
    requires
        tokens@.len() > 0,
    ensures
        r@ == kind_of(tokens@, Opcode::DclFunctionTable),
{
    let table_index: u32 = word_or_zero(tokens, 1);
    let count: usize = word_or_zero(tokens, 2) as usize;
    InstructionKind::DclFunctionTable { table_index, body_indices: collect_words(tokens, 3, count) }
}

fn decode_dcl_interface(tokens: &[u32]) -> (r: InstructionKind)
    requires
        tokens@.len() > 0,
    ensures
        r@ == kind_of(tokens@, Opcode::DclInterface),
{
    let interface_index: u32 = word_or_zero(tokens, 1);
    let num_call_sites: u32 = word_or_zero(tokens, 2);
    let num_types: usize = word_or_zero(tokens, 3) as usize;
    InstructionKind::DclInterface {
        interface_index,
        num_call_sites,
        table_indices: collect_words(tokens, 4, num_types),
    }
}

fn decode_generic(tokens: &[u32]) -> (r: InstructionKind)
    requires
        tokens@.len() > 0,
    ensures
        r@ == (KindModel::Generic { operands: operands_from(tokens@, operands_start(tokens@)) }),
{
    let mut start: usize = 1;
    if set(tokens[0], 31) {
        while start < tokens.len() && set(tokens[start], 31)
            invariant
                start <= tokens@.len(),
                behind_extended(tokens@, start as nat) == behind_extended(tokens@, 1),
            decreases tokens@.len() - start,
        {
            start = start + 1;
        }
        if start >= tokens.len() {
            proof {
                assert(operands_from(tokens@, (start + 1) as nat) =~= Seq::<OperandModel>::empty());
                assert(operand_models(Seq::<Operand>::empty()) =~= Seq::<OperandModel>::empty());
            }
            return InstructionKind::Generic { operands: Vec::new() };
        }
        start = start + 1;
    }
    InstructionKind::Generic { operands: decode_operands(tokens, start) }
}

fn decode_operands(tokens: &[u32], start: usize) -> (r: Operands)
    ensures
        operand_models(r@) == operands_from(tokens@, start as nat),
{
    let mut result: Operands = Vec::new();
    let mut pos: usize = start;
    let mut going = true;
    let ghost whole = operands_from(tokens@, start as nat);
    proof {
        assert(operand_models(result@) + whole =~= whole);
    }
    while going && pos < tokens.len()
        invariant
            going ==> operand_models(result@) + operands_from(tokens@, pos as nat) == whole,
            !going ==> operand_models(result@) == whole,
        decreases (if going { 1int } else { 0int }), tokens@.len() - pos,
    {
        let (op, consumed) = decode_one_operand(tokens, pos);
        let ghost before = operand_models(result@);
        if consumed == 0 {
            going = false;
            proof {
                assert(before + Seq::<OperandModel>::empty() =~= before);
            }
        } else {
            let ghost one = op@;
            result.push(op);
            pos = pos + consumed;
            proof {
                assert(operand_models(result@) =~= before.push(one));
                let rest = operands_from(tokens@, pos as nat);
                assert(before.push(one) + rest =~= before + (seq![one] + rest));
            }
        }
    }
    proof {
        if going {
            assert(operand_models(result@) + Seq::<OperandModel>::empty() =~= operand_models(result@));
        }
    }
    result
}

#[verifier::rlimit(40)]
#[verifier::spinoff_prover]
fn decode_one_operand(tokens: &[u32], pos: usize) -> (r: (Operand, usize))
    ensures
        r.0@ == operand_at(tokens@, pos as nat).0,
        r.1 == operand_at(tokens@, pos as nat).1,
        pos <= tokens@.len() ==> pos + r.1 <= tokens@.len(),
        pos > tokens@.len() ==> r.1 == 0,
    decreases left(tokens@, pos as nat), 0nat,
{
    if pos >= tokens.len() {
        return (empty_operand(), 0);
    }
    let token: u32 = tokens[pos];
    let op_type_val: u32 = (token >> 12) & 0xFF;
    let index_dim: u32 = (token >> 20) & 0x3;
    let reg_type = RegisterType::from_u32(op_type_val);
    let mut consumed: usize = 1;
    let mut negate = false;
    let mut abs = false;
    if set(token, 31) && pos + 1 < tokens.len() {
        let ext: u32 = tokens[pos + 1];
        consumed = 2;
        negate = set(ext, 6);
        abs = set(ext, 7);
    }
    let components = decode_components(token);
    let num_components: u32 = components.num_components();
    let mut indices: Vec<OperandIndex> = Vec::new();
    let mut immediate_values = Words::new();
    proof {
        lemma_fields_fit(token >> 20);
    }
    if index_dim == 0 {
        let each: usize = match num_components {
            0 => 0,
            1 => 1,
            _ => 4,
        };
        let count: usize = match op_type_val {
            4 => each,
            5 => each * 2,
            _ => 0,
        };
        immediate_values = collect_words(tokens, pos + consumed, count);
        let held: usize = immediate_values.as_slice().len();
        consumed = consumed + held;
    } else {
        let (idx0, n0) = decode_index(tokens, pos + consumed, (token >> 22) & 0x7);
        indices.push(idx0);
        consumed = consumed + n0;
        if index_dim >= 2 {
            let (idx1, n1) = decode_index(tokens, pos + consumed, (token >> 25) & 0x7);
            indices.push(idx1);
            consumed = consumed + n1;
            if index_dim >= 3 {
                let (idx2, n2) = decode_index(tokens, pos + consumed, (token >> 28) & 0x7);
                indices.push(idx2);
                consumed = consumed + n2;
            }
        }
    }
    let operand = Operand { reg_type, components, negate, abs, indices, immediate_values };
    proof {
        let wanted = operand_at(tokens@, pos as nat).0;
        assert(operand@.indices =~= wanted.indices);
        assert(operand@.immediate_values =~= wanted.immediate_values);
    }
    (operand, consumed)
}

fn decode_components(token: u32) -> (r: ComponentSelect)
    ensures
        r == components_of(token),
{
    let sel_mode: u32 = (token >> 2) & 0x3;
    match token & 0x3 {
        0 => ComponentSelect::ZeroComponent,
        1 => ComponentSelect::OneComponent,
        2 => match sel_mode {
            0 => ComponentSelect::Mask(((token >> 4) & 0xF) as u8),
            1 => {
                let s: [u8; 4] = [
                    ((token >> 4) & 0x3) as u8,
                    ((token >> 6) & 0x3) as u8,
                    ((token >> 8) & 0x3) as u8,
                    ((token >> 10) & 0x3) as u8,
                ];
                proof {
                    assert(s =~= components_of(token)->Swizzle_0);
                }
                ComponentSelect::Swizzle(s)
            },
            2 => ComponentSelect::Scalar(((token >> 4) & 0x3) as u8),
            _ => ComponentSelect::ZeroComponent,
        },
        _ => ComponentSelect::ZeroComponent,
    }
}

fn decode_index(tokens: &[u32], pos: usize, repr: u32) -> (r: (OperandIndex, usize))
    ensures
        r.0@ == index_at(tokens@, pos as nat, repr).0,
        r.1 == index_at(tokens@, pos as nat, repr).1,
        pos <= tokens@.len() ==> pos + r.1 <= tokens@.len(),
        pos > tokens@.len() ==> r.1 == 0,
    decreases left(tokens@, pos as nat), 1nat,
{
    match repr {
        0 => {
            if pos < tokens.len() {
                (OperandIndex::Imm32(tokens[pos]), 1)
            } else {
                (OperandIndex::Imm32(0), 0)
            }
        },
        1 => {
            if pos < tokens.len() && pos + 1 < tokens.len() {
                let val: u64 = (tokens[pos] as u64) | ((tokens[pos + 1] as u64) << 32);
                (OperandIndex::Imm64(val), 2)
            } else {
                (OperandIndex::Imm32(0), 0)
            }
        },
        2 => {
            let (sub, consumed) = decode_one_operand(tokens, pos);
            (OperandIndex::Relative(Box::new(sub)), consumed)
        },
        3 => {
            if pos < tokens.len() {
                let imm: u32 = tokens[pos];
                let (sub, consumed) = decode_one_operand(tokens, pos + 1);
                (OperandIndex::RelativePlusImm(imm, Box::new(sub)), 1 + consumed)
            } else {
                (OperandIndex::Imm32(0), 0)
            }
        },
        _ => (OperandIndex::Imm32(0), 0),
    }
}

fn empty_operand() -> (r: Operand)
    ensures
        r@ == no_operand(),
{
    let r = Operand {
        reg_type: RegisterType::Unknown(0),
        components: ComponentSelect::ZeroComponent,
        negate: false,
        abs: false,
        indices: Vec::new(),
        immediate_values: Words::new(),
    };
    proof {
        assert(r@.immediate_values =~= no_operand().immediate_values);
        assert(r@.indices =~= no_operand().indices);
    }
    r
}

} // verus!
