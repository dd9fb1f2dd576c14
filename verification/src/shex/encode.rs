//! Encoder: the structured form to raw SHEX/SHDR bytes.
use crate::bytes::{bytes32, push32};
use crate::shex::ir::{
    operand_models, ComponentSelect, CustomDataType, FlagNames, IndexModel, Instruction, InstructionKind,
    InstructionModel, KindModel, Operand, OperandIndex, OperandModel, Program, ProgramModel, RegisterType, ReturnType,
};
use crate::shex::opcodes::Opcode;
use crate::text::same;
use vstd::prelude::*;

verus! {

/// The field for an interpolation mode's name, nought for a name that stands for no other.
pub open spec fn interpolation_value(text: Seq<char>) -> u32 {
    if text == "constant"@ { 1 }
    else if text == "linear"@ { 2 }
    else if text == "linearCentroid"@ { 3 }
    else if text == "linearNoperspective"@ { 4 }
    else if text == "linearNoperspectiveCentroid"@ { 5 }
    else if text == "linearSample"@ { 6 }
    else if text == "linearNoperspectiveSample"@ { 7 }
    else { 0 }
}

/// The field for an interpolation mode's name.
fn interpolation_to_u32(text: &str) -> (r: u32)
    ensures
        r == interpolation_value(text@),
{
    if same(text, "constant") { 1 }
    else if same(text, "linear") { 2 }
    else if same(text, "linearCentroid") { 3 }
    else if same(text, "linearNoperspective") { 4 }
    else if same(text, "linearNoperspectiveCentroid") { 5 }
    else if same(text, "linearSample") { 6 }
    else if same(text, "linearNoperspectiveSample") { 7 }
    else { 0 }
}

/// The field for a resource dimension's name, nought for a name that stands for no other.
pub open spec fn dimension_value(text: Seq<char>) -> u32 {
    if text == "buffer"@ { 1 }
    else if text == "texture1d"@ { 2 }
    else if text == "texture2d"@ { 3 }
    else if text == "texture2dms"@ { 4 }
    else if text == "texture3d"@ { 5 }
    else if text == "texturecube"@ { 6 }
    else if text == "texture1darray"@ { 7 }
    else if text == "texture2darray"@ { 8 }
    else if text == "texture2dmsarray"@ { 9 }
    else if text == "texturecubearray"@ { 10 }
    else { 0 }
}

/// The field for a resource dimension's name.
fn dimension_to_u32(text: &str) -> (r: u32)
    ensures
        r == dimension_value(text@),
{
    if same(text, "buffer") { 1 }
    else if same(text, "texture1d") { 2 }
    else if same(text, "texture2d") { 3 }
    else if same(text, "texture2dms") { 4 }
    else if same(text, "texture3d") { 5 }
    else if same(text, "texturecube") { 6 }
    else if same(text, "texture1darray") { 7 }
    else if same(text, "texture2darray") { 8 }
    else if same(text, "texture2dmsarray") { 9 }
    else if same(text, "texturecubearray") { 10 }
    else { 0 }
}

/// The field for a sampler mode's name, nought for a name that stands for no other.
pub open spec fn sampler_value(text: Seq<char>) -> u32 {
    if text == "comparison"@ { 1 }
    else if text == "mono"@ { 2 }
    else { 0 }
}

/// The field for a sampler mode's name.
fn sampler_to_u32(text: &str) -> (r: u32)
    ensures
        r == sampler_value(text@),
{
    if same(text, "comparison") { 1 }
    else if same(text, "mono") { 2 }
    else { 0 }
}

/// The field for a tessellator domain's name, nought for a name that stands for no other.
pub open spec fn domain_value(text: Seq<char>) -> u32 {
    if text == "isoline"@ { 1 }
    else if text == "tri"@ { 2 }
    else if text == "quad"@ { 3 }
    else { 0 }
}

/// The field for a tessellator domain's name.
fn domain_to_u32(text: &str) -> (r: u32)
    ensures
        r == domain_value(text@),
{
    if same(text, "isoline") { 1 }
    else if same(text, "tri") { 2 }
    else if same(text, "quad") { 3 }
    else { 0 }
}

/// The field for a tessellator partitioning's name, nought for a name that stands for no other.
pub open spec fn partitioning_value(text: Seq<char>) -> u32 {
    if text == "integer"@ { 1 }
    else if text == "pow2"@ { 2 }
    else if text == "fractional_odd"@ { 3 }
    else if text == "fractional_even"@ { 4 }
    else { 0 }
}

/// The field for a tessellator partitioning's name.
fn partitioning_to_u32(text: &str) -> (r: u32)
    ensures
        r == partitioning_value(text@),
{
    if same(text, "integer") { 1 }
    else if same(text, "pow2") { 2 }
    else if same(text, "fractional_odd") { 3 }
    else if same(text, "fractional_even") { 4 }
    else { 0 }
}

/// The field for a tessellator output primitive's name, nought for a name that stands for no other.
pub open spec fn output_primitive_value(text: Seq<char>) -> u32 {
    if text == "point"@ { 1 }
    else if text == "line"@ { 2 }
    else if text == "triangle_cw"@ { 3 }
    else if text == "triangle_ccw"@ { 4 }
    else { 0 }
}

/// The field for a tessellator output primitive's name.
fn output_primitive_to_u32(text: &str) -> (r: u32)
    ensures
        r == output_primitive_value(text@),
{
    if same(text, "point") { 1 }
    else if same(text, "line") { 2 }
    else if same(text, "triangle_cw") { 3 }
    else if same(text, "triangle_ccw") { 4 }
    else { 0 }
}

/// The field for a shader stage's name, nought for a name that stands for no other.
pub open spec fn stage_value(text: Seq<char>) -> u32 {
    if text == "vs"@ { 1 }
    else if text == "gs"@ { 2 }
    else if text == "hs"@ { 3 }
    else if text == "ds"@ { 4 }
    else if text == "cs"@ { 5 }
    else { 0 }
}

/// The field for a shader stage's name.
fn stage_to_u32(text: &str) -> (r: u32)
    ensures
        r == stage_value(text@),
{
    if same(text, "vs") { 1 }
    else if same(text, "gs") { 2 }
    else if same(text, "hs") { 3 }
    else if same(text, "ds") { 4 }
    else if same(text, "cs") { 5 }
    else { 0 }
}

/// The field for a system value's name, nought for a name that stands for no other.
pub open spec fn system_value_value(text: Seq<char>) -> u32 {
    if text == "undefined"@ { 0 }
    else if text == "position"@ { 1 }
    else if text == "clip_distance"@ { 2 }
    else if text == "cull_distance"@ { 3 }
    else if text == "render_target_array_index"@ { 4 }
    else if text == "viewport_array_index"@ { 5 }
    else if text == "vertex_id"@ { 6 }
    else if text == "primitive_id"@ { 7 }
    else if text == "instance_id"@ { 8 }
    else if text == "is_front_face"@ { 9 }
    else if text == "sample_index"@ { 10 }
    else if text == "finalQuadUeq0EdgeTessFactor"@ { 11 }
    else if text == "finalQuadVeq0EdgeTessFactor"@ { 12 }
    else if text == "finalQuadUeq1EdgeTessFactor"@ { 13 }
    else if text == "finalQuadVeq1EdgeTessFactor"@ { 14 }
    else if text == "finalQuadUInsideTessFactor"@ { 15 }
    else if text == "finalQuadVInsideTessFactor"@ { 16 }
    else if text == "finalTriUeq0EdgeTessFactor"@ { 17 }
    else if text == "finalTriVeq0EdgeTessFactor"@ { 18 }
    else if text == "finalTriWeq0EdgeTessFactor"@ { 19 }
    else if text == "finalTriInsideTessFactor"@ { 20 }
    else if text == "finalLineDetailTessFactor"@ { 21 }
    else if text == "finalLineDensityTessFactor"@ { 22 }
    else if text == "target"@ { 23 }
    else if text == "depth"@ { 24 }
    else if text == "coverage"@ { 25 }
    else if text == "depth_greater_equal"@ { 26 }
    else if text == "depth_less_equal"@ { 27 }
    else if text == "stencil_ref"@ { 64 }
    else if text == "inner_coverage"@ { 65 }
    else { 0 }
}

/// The field for a system value's name.
fn system_value_to_u32(text: &str) -> (r: u32)
    ensures
        r == system_value_value(text@),
{
    if same(text, "undefined") { 0 }
    else if same(text, "position") { 1 }
    else if same(text, "clip_distance") { 2 }
    else if same(text, "cull_distance") { 3 }
    else if same(text, "render_target_array_index") { 4 }
    else if same(text, "viewport_array_index") { 5 }
    else if same(text, "vertex_id") { 6 }
    else if same(text, "primitive_id") { 7 }
    else if same(text, "instance_id") { 8 }
    else if same(text, "is_front_face") { 9 }
    else if same(text, "sample_index") { 10 }
    else if same(text, "finalQuadUeq0EdgeTessFactor") { 11 }
    else if same(text, "finalQuadVeq0EdgeTessFactor") { 12 }
    else if same(text, "finalQuadUeq1EdgeTessFactor") { 13 }
    else if same(text, "finalQuadVeq1EdgeTessFactor") { 14 }
    else if same(text, "finalQuadUInsideTessFactor") { 15 }
    else if same(text, "finalQuadVInsideTessFactor") { 16 }
    else if same(text, "finalTriUeq0EdgeTessFactor") { 17 }
    else if same(text, "finalTriVeq0EdgeTessFactor") { 18 }
    else if same(text, "finalTriWeq0EdgeTessFactor") { 19 }
    else if same(text, "finalTriInsideTessFactor") { 20 }
    else if same(text, "finalLineDetailTessFactor") { 21 }
    else if same(text, "finalLineDensityTessFactor") { 22 }
    else if same(text, "target") { 23 }
    else if same(text, "depth") { 24 }
    else if same(text, "coverage") { 25 }
    else if same(text, "depth_greater_equal") { 26 }
    else if same(text, "depth_less_equal") { 27 }
    else if same(text, "stencil_ref") { 64 }
    else if same(text, "inner_coverage") { 65 }
    else { 0 }
}

/// The bit that stands for a global flag's name.
pub open spec fn flag_bit(text: Seq<char>) -> u32 {
    if text == "refactoringAllowed"@ { 1u32 << 0u32 }
    else if text == "enableDoublePrecisionFloatOps"@ { 1u32 << 1u32 }
    else if text == "forceEarlyDepthStencil"@ { 1u32 << 2u32 }
    else if text == "enableRawAndStructuredBuffers"@ { 1u32 << 3u32 }
    else if text == "skipOptimization"@ { 1u32 << 4u32 }
    else if text == "enableMinPrecision"@ { 1u32 << 5u32 }
    else if text == "enable11_1DoubleExtensions"@ { 1u32 << 6u32 }
    else if text == "enable11_1ShaderExtensions"@ { 1u32 << 7u32 }
    else { 0 }
}

fn flag_to_bit(text: &str) -> (r: u32)
    ensures
        r == flag_bit(text@),
{
    if same(text, "refactoringAllowed") { 1u32 << 0u32 }
    else if same(text, "enableDoublePrecisionFloatOps") { 1u32 << 1u32 }
    else if same(text, "forceEarlyDepthStencil") { 1u32 << 2u32 }
    else if same(text, "enableRawAndStructuredBuffers") { 1u32 << 3u32 }
    else if same(text, "skipOptimization") { 1u32 << 4u32 }
    else if same(text, "enableMinPrecision") { 1u32 << 5u32 }
    else if same(text, "enable11_1DoubleExtensions") { 1u32 << 6u32 }
    else if same(text, "enable11_1ShaderExtensions") { 1u32 << 7u32 }
    else { 0 }
}

/// The bits for the first `n` names of a list.
pub open spec fn flag_bits(list: Seq<Seq<char>>, n: nat) -> u32
    decreases n,
{
    if n == 0 {
        0
    } else {
        flag_bits(list, (n - 1) as nat) | flag_bit(list[n - 1])
    }
}

/// The selection bits of an operand token.
pub open spec fn select_bits(c: ComponentSelect) -> u32 {
    match c {
        ComponentSelect::ZeroComponent => 0,
        ComponentSelect::OneComponent => 0,
        ComponentSelect::Mask(m) => (m as u32) << 4,
        ComponentSelect::Swizzle(s) => (1u32 << 2) | (((s[0] as u32) | ((s[1] as u32) << 2) | ((s[2] as u32) << 4) | ((
        s[3] as u32) << 6)) << 4),
        ComponentSelect::Scalar(c) => (2u32 << 2) | ((c as u32) << 4),
    }
}

/// The field that says how an index level is written.
pub open spec fn representation(idx: IndexModel) -> u32 {
    match idx {
        IndexModel::Imm32(_) => 0,
        IndexModel::Imm64(_) => 1,
        IndexModel::Relative(_) => 2,
        IndexModel::RelativePlusImm(_, _) => 3,
    }
}

/// A token with the representations of the first `n` index levels put into it.
pub open spec fn with_representations(token: u32, indices: Seq<IndexModel>, n: nat) -> u32
    decreases n,
{
    if n == 0 {
        token
    } else {
        with_representations(token, indices, (n - 1) as nat) | (representation(indices[n - 1]) << (22 + (n - 1) * 3) as u32)
    }
}

/// The operand carries a modifier.
pub open spec fn modified(op: OperandModel) -> bool {
    op.negate || op.abs
}

/// An operand's token, but for the representations of its index levels.
pub open spec fn plain_token(op: OperandModel) -> u32 {
    let token = op.components.count() | select_bits(op.components) | ((op.reg_type.raw() & 0xFF) << 12) | (((
    op.indices.len() as u32) & 0x3) << 20);
    if modified(op) {
        token | (1u32 << 31)
    } else {
        token
    }
}

/// The token with an operand's modifiers.
pub open spec fn modifier_token(op: OperandModel) -> u32 {
    let token = if op.negate {
        1u32 | (1u32 << 6)
    } else {
        1u32
    };
    if op.abs {
        token | (1u32 << 7)
    } else {
        token
    }
}

/// The words before an operand's data.
pub open spec fn operand_head(op: OperandModel) -> Seq<u32> {
    let token = with_representations(plain_token(op), op.indices, op.indices.len());
    if modified(op) {
        seq![token, modifier_token(op)]
    } else {
        seq![token]
    }
}

/// The operand's data are immediate values.
pub open spec fn immediate(op: OperandModel) -> bool {
    op.indices.len() == 0 && (op.reg_type is Immediate32 || op.reg_type is Immediate64)
}

/// The words of an operand.
pub open spec fn operand_words(op: OperandModel) -> Seq<u32>
    decreases op, 0nat,
{
    if immediate(op) {
        operand_head(op) + op.immediate_values
    } else {
        operand_head(op) + indices_words(op.indices, op.indices.len())
    }
}

/// The words of the first `n` index levels.
pub open spec fn indices_words(indices: Seq<IndexModel>, n: nat) -> Seq<u32>
    decreases indices, n,
{
    if n == 0 || n > indices.len() {
        Seq::empty()
    } else {
        indices_words(indices, (n - 1) as nat) + index_words(indices[n - 1])
    }
}

/// The words of an index level.
pub open spec fn index_words(idx: IndexModel) -> Seq<u32>
    decreases idx, 0nat,
{
    match idx {
        IndexModel::Imm32(v) => seq![v],
        IndexModel::Imm64(v) => seq![v as u32, (v >> 32) as u32],
        IndexModel::Relative(sub) => operand_words(*sub),
        IndexModel::RelativePlusImm(imm, sub) => seq![imm] + operand_words(*sub),
    }
}

/// The words of the first `n` operands of a list.
pub open spec fn operands_words(ops: Seq<OperandModel>, n: nat) -> Seq<u32>
    decreases n,
{
    if n == 0 {
        Seq::empty()
    } else {
        operands_words(ops, (n - 1) as nat) + operand_words(ops[n - 1])
    }
}

/// An operand's token has room for its index levels, and so have those of the operands within them.
pub open spec fn index_levels_fit(op: OperandModel) -> bool
    decreases op, 0nat,
{
    op.indices.len() <= 4 && nested_levels_fit(op.indices, op.indices.len())
}

/// The operands within the first `n` index levels have room for their own.
pub open spec fn nested_levels_fit(indices: Seq<IndexModel>, n: nat) -> bool
    decreases indices, n,
{
    if n == 0 || n > indices.len() {
        true
    } else {
        nested_levels_fit(indices, (n - 1) as nat) && index_level_fits(indices[n - 1])
    }
}

/// The operand within an index level has room for its own levels.
pub open spec fn index_level_fits(idx: IndexModel) -> bool
    decreases idx, 0nat,
{
    match idx {
        IndexModel::Relative(sub) => index_levels_fit(*sub),
        IndexModel::RelativePlusImm(_, sub) => index_levels_fit(*sub),
        _ => true,
    }
}

/// Every operand of a list has room for its index levels.
pub open spec fn all_levels_fit(ops: Seq<OperandModel>) -> bool {
    forall|i: int| 0 <= i < ops.len() ==> index_levels_fit(#[trigger] ops[i])
}

/// Four return types in one word.
pub open spec fn return_type_word(rt: [ReturnType; 4]) -> u32 {
    rt[0].raw() | (rt[1].raw() << 4) | (rt[2].raw() << 8) | (rt[3].raw() << 12)
}

/// The bits 11 to 23 of an instruction's first token.
pub open spec fn opdata(instr: InstructionModel) -> u32 {
    match instr.kind {
        KindModel::DclGlobalFlags { flags } => flag_bits(flags, flags.len()) << 11,
        KindModel::DclInput { interpolation, .. } => match interpolation {
            Some(text) => interpolation_value(text) << 11,
            None => 0,
        },
        KindModel::DclResource { dimension, sample_count, .. } => (dimension_value(dimension) << 11) | ((sample_count
            & 0x7F) << 16),
        KindModel::DclSampler { mode, .. } => sampler_value(mode) << 11,
        KindModel::DclConstantBuffer { access, .. } => if access == "dynamicIndexed"@ {
            1u32 << 11
        } else {
            0
        },
        KindModel::DclGsInputPrimitive { primitive } => (primitive.raw() & 0x3F) << 11,
        KindModel::DclGsOutputTopology { topology } => (topology.raw() & 0xF) << 11,
        KindModel::DclOutputControlPointCount { count } => (count & 0x3F) << 11,
        KindModel::DclInputControlPointCount { count } => (count & 0x3F) << 11,
        KindModel::DclTessDomain { domain } => domain_value(domain) << 11,
        KindModel::DclTessPartitioning { partitioning } => partitioning_value(partitioning) << 11,
        KindModel::DclTessOutputPrimitive { primitive } => output_primitive_value(primitive) << 11,
        KindModel::DclUavTyped { dimension, flags, .. } => (dimension_value(dimension) << 11) | ((flags & 0xFF) << 16),
        KindModel::DclUavRaw { flags, .. } => (flags & 0xFF) << 16,
        KindModel::DclUavStructured { flags, .. } => (flags & 0xFF) << 16,
        _ => control_bits(instr),
    }
}

/// The bits 11 to 23 of an instruction that is no declaration.
pub open spec fn control_bits(instr: InstructionModel) -> u32 {
    let modes = if instr.opcode is Sync {
        ((instr.sync_flags as u32) & 0xF) << 11
    } else {
        (if instr.saturate { 1u32 << 13 } else { 0 }) | (match instr.resinfo_return_type {
            Some(rt) => (rt & 0x3) << 11,
            None => 0,
        })
    };
    modes | (if instr.test_nonzero { 1u32 << 18 } else { 0 }) | (((instr.precise_mask as u32) & 0xF) << 19)
}

/// The word with an instruction's sample offsets.
pub open spec fn offsets_word(o: [i8; 3]) -> u32 {
    1u32 | (((o[0] as u32) & 0xF) << 9) | (((o[1] as u32) & 0xF) << 13) | (((o[2] as u32) & 0xF) << 17)
}

/// An optional word, as a list.
pub open spec fn optional_word(w: Option<u32>) -> Seq<u32> {
    match w {
        Some(raw) => seq![raw & 0x7FFF_FFFF],
        None => Seq::empty(),
    }
}

/// The extended tokens of an instruction before they are chained.
pub open spec fn loose_extended(instr: InstructionModel) -> Seq<u32> {
    (match instr.tex_offsets {
        Some(o) => seq![offsets_word(o)],
        None => Seq::empty(),
    }) + optional_word(instr.resource_dim) + optional_word(instr.resource_return_type)
}

/// The extended tokens of an instruction: bit 31 is set on each but the last.
pub open spec fn extended_words(instr: InstructionModel) -> Seq<u32> {
    let loose = loose_extended(instr);
    Seq::new(
        loose.len(),
        |i: int| if i + 1 < loose.len() { loose[i] | (1u32 << 31) } else { loose[i] },
    )
}

/// A system value that ends a declaration, as a list.
pub open spec fn system_value_words(sv: Option<Seq<char>>) -> Seq<u32> {
    match sv {
        Some(text) => seq![system_value_value(text)],
        None => Seq::empty(),
    }
}

/// The words of an instruction behind its first token and its extended tokens.
pub open spec fn kind_words(kind: KindModel) -> Seq<u32> {
    match kind {
        KindModel::Generic { operands } => operands_words(operands, operands.len()),
        KindModel::DclInput { system_value, operands, .. } => operands_words(operands, operands.len())
            + system_value_words(system_value),
        KindModel::DclOutput { system_value, operands } => operands_words(operands, operands.len())
            + system_value_words(system_value),
        KindModel::DclResource { return_type, operands, .. } => operands_words(operands, operands.len())
            + seq![return_type_word(return_type)],
        KindModel::DclSampler { operands, .. } => operands_words(operands, operands.len()),
        KindModel::DclConstantBuffer { operands, .. } => operands_words(operands, operands.len()),
        KindModel::DclTemps { count } => seq![count],
        KindModel::DclIndexableTemp { reg, size, components } => seq![reg, size, components],
        KindModel::DclMaxOutputVertexCount { count } => seq![count],
        KindModel::DclGsInstanceCount { count } => seq![count],
        KindModel::DclHsForkPhaseInstanceCount { count } => seq![count],
        KindModel::DclHsMaxTessFactor { value } => seq![value],
        KindModel::DclThreadGroup { x, y, z } => seq![x, y, z],
        KindModel::DclUavTyped { return_type, operands, .. } => operands_words(operands, operands.len())
            + seq![return_type_word(return_type)],
        KindModel::DclUavRaw { operands, .. } => operands_words(operands, operands.len()),
        KindModel::DclUavStructured { operands, stride, .. } => operands_words(operands, operands.len())
            + seq![stride],
        KindModel::DclResourceRaw { operands } => operands_words(operands, operands.len()),
        KindModel::DclResourceStructured { stride, operands } => operands_words(operands, operands.len())
            + seq![stride],
        KindModel::DclFunctionBody { index } => seq![index],
        KindModel::DclFunctionTable { table_index, body_indices } => seq![table_index, body_indices.len() as u32]
            + body_indices,
        KindModel::DclInterface { interface_index, num_call_sites, table_indices } => seq![
            interface_index,
            num_call_sites,
            table_indices.len() as u32,
        ] + table_indices,
        KindModel::DclIndexRange { operands, count } => operands_words(operands, operands.len()) + seq![count],
        _ => Seq::empty(),
    }
}

/// The words of the first `n` rows of an immediate constant buffer.
pub open spec fn rows_words(rows: Seq<[u32; 4]>, n: nat) -> Seq<u32>
    decreases n,
{
    if n == 0 {
        Seq::empty()
    } else {
        rows_words(rows, (n - 1) as nat) + rows[n - 1]@
    }
}

/// The words of a custom data block: its second word says how many words it takes, its header included.
pub open spec fn custom_words(opcode: u32, subtype: CustomDataType, values: Seq<[u32; 4]>, rest: Seq<u32>) -> Seq<u32> {
    let total = 2 + values.len() * 4 + rest.len();
    seq![(opcode & 0x7FF) | (subtype.raw() << 11), total as u32] + rows_words(values, values.len()) + rest
}

/// The first token of an instruction of `len` words.
pub open spec fn first_token(instr: InstructionModel, len: nat) -> u32 {
    let token = (instr.opcode.code() & 0x7FF) | opdata(instr);
    let token = if extended_words(instr).len() > 0 {
        token | (1u32 << 31)
    } else {
        token
    };
    token | (((len as u32) & 0x7F) << 24)
}

/// The words of an instruction.
pub open spec fn instruction_words(instr: InstructionModel) -> Seq<u32> {
    match instr.kind {
        KindModel::CustomData { subtype, values, rest, .. } => custom_words(
            instr.opcode.code(),
            subtype,
            values,
            rest,
        ),
        _ => {
            let rest = extended_words(instr) + kind_words(instr.kind);
            seq![first_token(instr, 1 + rest.len())] + rest
        },
    }
}

/// The words of the first `n` instructions of a list.
pub open spec fn stream_words(instrs: Seq<InstructionModel>, n: nat) -> Seq<u32>
    decreases n,
{
    if n == 0 {
        Seq::empty()
    } else {
        stream_words(instrs, (n - 1) as nat) + instruction_words(instrs[n - 1])
    }
}

/// The words of a program: version, word count, instructions.
pub open spec fn program_words(p: ProgramModel) -> Seq<u32> {
    let body = stream_words(p.instructions, p.instructions.len());
    seq![
        (stage_value(p.shader_type) << 16) | (p.major_version << 4) | p.minor_version,
        (2 + body.len()) as u32,
    ] + body
}

/// The bytes of the first `n` words of a list.
pub open spec fn words_bytes(words: Seq<u32>, n: nat) -> Seq<u8>
    decreases n,
{
    if n == 0 {
        Seq::empty()
    } else {
        words_bytes(words, (n - 1) as nat) + bytes32(words[n - 1])
    }
}

/// The bytes of a program.
pub open spec fn program_bytes(p: ProgramModel) -> Seq<u8> {
    words_bytes(program_words(p), program_words(p).len())
}

/// The operand tokens of a program have room for the operands' index levels.
pub open spec fn program_levels_fit(p: ProgramModel) -> bool {
    forall|i: int| 0 <= i < p.instructions.len() ==> all_levels_fit((#[trigger] p.instructions[i]).kind.operands())
}

/// Encode a program into the payload of a SHEX/SHDR chunk, the inverse of
/// [`decode`](crate::shex::decode::decode).
pub fn encode(program: &Program) -> (r: Vec<u8>)
    requires
        program_levels_fit(program@),
    ensures
        r@ == program_bytes(program@),
{
    let mut dwords: Vec<u32> = Vec::new();
    let stage: u32 = stage_to_u32(program.shader_type);
    dwords.push((stage << 16) | (program.major_version << 4) | program.minor_version);
    dwords.push(0);
    let ghost head = dwords@;
    let ghost instrs = program@.instructions;
    let mut i: usize = 0;
    proof {
        assert(head + stream_words(instrs, 0) =~= head);
    }
    while i < program.instructions.len()
        invariant
            i <= program.instructions@.len(),
            instrs == program@.instructions,
            program_levels_fit(program@),
            dwords@ == head + stream_words(instrs, i as nat),
        decreases program.instructions@.len() - i,
    {
        assert(instrs[i as int] == program.instructions@[i as int]@);
        encode_instruction(&program.instructions[i], &mut dwords);
        i = i + 1;
        proof {
            assert(dwords@ =~= head + stream_words(instrs, i as nat));
        }
    }
    let total: u32 = dwords.len() as u32;
    dwords.set(1, total);
    proof {
        assert(dwords@ =~= program_words(program@));
    }
    let mut out: Vec<u8> = Vec::new();
    let mut k: usize = 0;
    while k < dwords.len()
        invariant
            k <= dwords@.len(),
            out@ == words_bytes(dwords@, k as nat),
        decreases dwords@.len() - k,
    {
        push32(&mut out, dwords[k]);
        k = k + 1;
    }
    out
}

/// Encode one instruction behind the words that are there.
fn encode_instruction(instr: &Instruction, out: &mut Vec<u32>)
    requires
        all_levels_fit(instr@.kind.operands()),
    ensures
        final(out)@ == old(out)@ + instruction_words(instr@),
{
    let opcode_val: u32 = instr.opcode.to_u32();
    if let InstructionKind::CustomData { subtype, values, rest, .. } = &instr.kind {
        encode_custom_data(opcode_val, subtype, values, rest, out);
        return;
    }
    let ghost before = out@;
    let token0_idx: usize = out.len();
    out.push(0);
    let ext_tokens = build_extended_tokens(instr);
    let mut i: usize = 0;
    while i < ext_tokens.len()
        invariant
            i <= ext_tokens@.len(),
            out@ == before.push(0) + ext_tokens@.take(i as int),
        decreases ext_tokens@.len() - i,
    {
        out.push(ext_tokens[i]);
        i = i + 1;
        proof {
            assert(out@ =~= before.push(0) + ext_tokens@.take(i as int));
        }
    }
    encode_kind(instr, out);
    proof {
        assert(ext_tokens@.take(i as int) =~= ext_tokens@);
    }
    let instr_len: u32 = (out.len() - token0_idx) as u32;
    let mut token0: u32 = (opcode_val & 0x7FF) | build_token0_opdata(instr);
    if ext_tokens.len() > 0 {
        token0 = token0 | (1u32 << 31);
    }
    token0 = token0 | ((instr_len & 0x7F) << 24);
    out.set(token0_idx, token0);
    proof {
        let rest = extended_words(instr@) + kind_words(instr@.kind);
        assert(instr_len == (1 + rest.len()) as u32);
        assert(token0 == first_token(instr@, 1 + rest.len()));
        assert(out@ =~= before + (seq![token0] + rest));
    }
}

fn flags_to_bits(flags: &FlagNames) -> (r: u32)
    ensures
        r == flag_bits(flags@, flags@.len()),
{
    let names = flags.as_slice();
    let ghost all = flags@;
    let mut bits: u32 = 0;
    let mut i: usize = 0;
    while i < names.len()
        invariant
            i <= names@.len(),
            all == names@.map_values(|s: &'static str| s@),
            bits == flag_bits(all, i as nat),
        decreases names@.len() - i,
    {
        bits = bits | flag_to_bit(names[i]);
        i = i + 1;
    }
    bits
}

/// The bits 11 to 23 of an instruction's first token.
fn build_token0_opdata(instr: &Instruction) -> (r: u32)
    ensures
        r == opdata(instr@),
{
    match &instr.kind {
        InstructionKind::DclGlobalFlags { flags } => flags_to_bits(flags) << 11,
        InstructionKind::DclInput { interpolation, .. } => match interpolation {
            Some(interp) => interpolation_to_u32(interp) << 11,
            None => 0,
        },
        InstructionKind::DclResource { dimension, sample_count, .. } => {
            (dimension_to_u32(dimension) << 11) | ((*sample_count & 0x7F) << 16)
        },
        InstructionKind::DclSampler { mode, .. } => sampler_to_u32(mode) << 11,
        InstructionKind::DclConstantBuffer { access, .. } => if same(access, "dynamicIndexed") {
            1u32 << 11
        } else {
            0
        },
        InstructionKind::DclGsInputPrimitive { primitive } => (primitive.to_raw() & 0x3F) << 11,
        InstructionKind::DclGsOutputTopology { topology } => (topology.to_raw() & 0xF) << 11,
        InstructionKind::DclOutputControlPointCount { count } => (*count & 0x3F) << 11,
        InstructionKind::DclInputControlPointCount { count } => (*count & 0x3F) << 11,
        InstructionKind::DclTessDomain { domain } => domain_to_u32(domain) << 11,
        InstructionKind::DclTessPartitioning { partitioning } => partitioning_to_u32(partitioning) << 11,
        InstructionKind::DclTessOutputPrimitive { primitive } => output_primitive_to_u32(primitive) << 11,
        InstructionKind::DclUavTyped { dimension, flags, .. } => {
            (dimension_to_u32(dimension) << 11) | ((*flags & 0xFF) << 16)
        },
        InstructionKind::DclUavRaw { flags, .. } => (*flags & 0xFF) << 16,
        InstructionKind::DclUavStructured { flags, .. } => (*flags & 0xFF) << 16,
        _ => {
            // Sync has flags of its own where other opcodes have saturate and the return type.
            let modes: u32 = if instr.opcode == Opcode::Sync {
                ((instr.sync_flags as u32) & 0xF) << 11
            } else {
                let saturate: u32 = if instr.saturate {
                    1u32 << 13
                } else {
                    0
                };
                let resinfo: u32 = match instr.resinfo_return_type {
                    Some(rt) => (rt & 0x3) << 11,
                    None => 0,
                };
                saturate | resinfo
            };
            let test: u32 = if instr.test_nonzero {
                1u32 << 18
            } else {
                0
            };
            modes | test | (((instr.precise_mask as u32) & 0xF) << 19)
        },
    }
}

fn push_words(out: &mut Vec<u32>, words: &[u32])
    ensures
        final(out)@ == old(out)@ + words@,
{
    let ghost before = out@;
    let mut i: usize = 0;
    while i < words.len()
        invariant
            i <= words@.len(),
            out@ == before + words@.take(i as int),
        decreases words@.len() - i,
    {
        out.push(words[i]);
        i = i + 1;
        proof {
            assert(out@ =~= before + words@.take(i as int));
        }
    }
    proof {
        assert(words@.take(i as int) =~= words@);
    }
}

/// Encode a custom data block. Its second word, and not the first token, says how many words it takes.
fn encode_custom_data(
    opcode_val: u32,
    subtype: &CustomDataType,
    values: &Vec<[u32; 4]>,
    rest: &Vec<u32>,
    out: &mut Vec<u32>,
)
    ensures
        final(out)@ == old(out)@ + custom_words(opcode_val, *subtype, values@, rest@),
{
    let ghost before = out@;
    out.push((opcode_val & 0x7FF) | (subtype.to_u32() << 11));
    // Only the low 32 bits of the count are written.
    let total: u32 = (2u128 + values.len() as u128 * 4 + rest.len() as u128) as u32;
    out.push(total);
    let ghost head = out@;
    let mut i: usize = 0;
    proof {
        assert(head + rows_words(values@, 0) =~= head);
    }
    while i < values.len()
        invariant
            i <= values@.len(),
            out@ == head + rows_words(values@, i as nat),
        decreases values@.len() - i,
    {
        push_words(out, values[i].as_slice());
        i = i + 1;
        proof {
            assert(out@ =~= head + rows_words(values@, i as nat));
        }
    }
    push_words(out, rest.as_slice());
    proof {
        assert(out@ =~= before + custom_words(opcode_val, *subtype, values@, rest@));
    }
}

fn push_system_value(sv: &Option<&'static str>, out: &mut Vec<u32>)
    ensures
        final(out)@ == old(out)@ + system_value_words(crate::shex::ir::text_model(*sv)),
{
    match sv {
        Some(text) => {
            out.push(system_value_to_u32(text));
            proof {
                assert(out@ =~= old(out)@ + system_value_words(crate::shex::ir::text_model(*sv)));
            }
        },
        None => {
            proof {
                assert(out@ =~= old(out)@ + system_value_words(crate::shex::ir::text_model(*sv)));
            }
        },
    }
}

/// Encode the words behind the first token and the extended tokens.
#[verifier::rlimit(60)]
#[verifier::spinoff_prover]
fn encode_kind(instr: &Instruction, out: &mut Vec<u32>)
    requires
        all_levels_fit(instr@.kind.operands()),
    ensures
        final(out)@ == old(out)@ + kind_words(instr@.kind),
{
    match &instr.kind {
        InstructionKind::Generic { operands } => {
            encode_operands(operands, out);
        },
        InstructionKind::DclInput { system_value, operands, .. } => {
            encode_operands(operands, out);
            push_system_value(system_value, out);
        },
        InstructionKind::DclOutput { system_value, operands } => {
            encode_operands(operands, out);
            push_system_value(system_value, out);
        },
        InstructionKind::DclResource { return_type, operands, .. } => {
            encode_operands(operands, out);
            out.push(encode_return_type_token(return_type));
        },
        InstructionKind::DclSampler { operands, .. } => {
            encode_operands(operands, out);
        },
        InstructionKind::DclConstantBuffer { operands, .. } => {
            encode_operands(operands, out);
        },
        InstructionKind::DclTemps { count } => {
            out.push(*count);
        },
        InstructionKind::DclIndexableTemp { reg, size, components } => {
            out.push(*reg);
            out.push(*size);
            out.push(*components);
        },
        InstructionKind::DclMaxOutputVertexCount { count } => {
            out.push(*count);
        },
        InstructionKind::DclGsInstanceCount { count } => {
            out.push(*count);
        },
        InstructionKind::DclHsForkPhaseInstanceCount { count } => {
            out.push(*count);
        },
        InstructionKind::DclHsMaxTessFactor { value } => {
            out.push(*value);
        },
        InstructionKind::DclThreadGroup { x, y, z } => {
            out.push(*x);
            out.push(*y);
            out.push(*z);
        },
        InstructionKind::DclUavTyped { return_type, operands, .. } => {
            encode_operands(operands, out);
            out.push(encode_return_type_token(return_type));
        },
        InstructionKind::DclUavRaw { operands, .. } => {
            encode_operands(operands, out);
        },
        InstructionKind::DclUavStructured { operands, stride, .. } => {
            encode_operands(operands, out);
            out.push(*stride);
        },
        InstructionKind::DclResourceRaw { operands } => {
            encode_operands(operands, out);
        },
        InstructionKind::DclResourceStructured { stride, operands } => {
            encode_operands(operands, out);
            out.push(*stride);
        },
        InstructionKind::DclFunctionBody { index } => {
            out.push(*index);
        },
        InstructionKind::DclFunctionTable { table_index, body_indices } => {
            out.push(*table_index);
            out.push(body_indices.as_slice().len() as u32);
            push_words(out, body_indices.as_slice());
        },
        InstructionKind::DclInterface { interface_index, num_call_sites, table_indices } => {
            out.push(*interface_index);
            out.push(*num_call_sites);
            out.push(table_indices.as_slice().len() as u32);
            push_words(out, table_indices.as_slice());
        },
        InstructionKind::DclIndexRange { operands, count } => {
            encode_operands(operands, out);
            out.push(*count);
        },
        // The rest has all its data in the first token, or none.
        _ => {},
    }
    proof {
        assert(out@ =~= old(out)@ + kind_words(instr@.kind));
    }
}

/// Encode a list of operands behind the words that are there.
fn encode_operands(operands: &Vec<Operand>, out: &mut Vec<u32>)
    requires
        all_levels_fit(operand_models(operands@)),
    ensures
        final(out)@ == old(out)@ + operands_words(operand_models(operands@), operands@.len()),
{
    let ghost before = out@;
    let ghost all = operand_models(operands@);
    let mut i: usize = 0;
    proof {
        assert(before + operands_words(all, 0) =~= before);
    }
    while i < operands.len()
        invariant
            i <= operands@.len(),
            all == operand_models(operands@),
            all_levels_fit(all),
            out@ == before + operands_words(all, i as nat),
        decreases operands@.len() - i,
    {
        assert(all[i as int] == operands@[i as int]@);
        encode_one_operand(&operands[i], out);
        i = i + 1;
        proof {
            assert(out@ =~= before + operands_words(all, i as nat));
        }
    }
}

proof fn lemma_level_fits(indices: Seq<IndexModel>, n: nat, i: int)
    requires
        nested_levels_fit(indices, n),
        0 <= i < n <= indices.len(),
    ensures
        index_level_fits(indices[i]),
    decreases n,
{
    if i < n - 1 {
        lemma_level_fits(indices, (n - 1) as nat, i);
    }
}

/// Encode an operand: its token, its modifiers, and its index levels or immediate values.
fn encode_one_operand(op: &Operand, out: &mut Vec<u32>)
    requires
        index_levels_fit(op@),
    ensures
        final(out)@ == old(out)@ + operand_words(op@),
    decreases op,
{
    let ghost before = out@;
    let ghost levels = op@.indices;
    let index_dim: u32 = op.indices.len() as u32;
    let sel_bits: u32 = match op.components {
        ComponentSelect::ZeroComponent => 0,
        ComponentSelect::OneComponent => 0,
        ComponentSelect::Mask(m) => (m as u32) << 4,
        ComponentSelect::Swizzle(s) => {
            let swiz: u32 = (s[0] as u32) | ((s[1] as u32) << 2) | ((s[2] as u32) << 4) | ((s[3] as u32) << 6);
            (1u32 << 2) | (swiz << 4)
        },
        ComponentSelect::Scalar(c) => (2u32 << 2) | ((c as u32) << 4),
    };
    let has_extended = op.negate || op.abs;
    let mut token: u32 = op.components.num_components() | sel_bits | ((op.reg_type.to_u32() & 0xFF) << 12) | ((
    index_dim & 0x3) << 20);
    if has_extended {
        token = token | (1u32 << 31);
    }
    let mut i: usize = 0;
    while i < op.indices.len()
        invariant
            i <= op.indices@.len() <= 4,
            levels == op@.indices,
            levels.len() == op.indices@.len(),
            token == with_representations(plain_token(op@), levels, i as nat),
        decreases op.indices@.len() - i,
    {
        assert(levels[i as int] == op.indices@[i as int]@);
        let repr: u32 = match &op.indices[i] {
            OperandIndex::Imm32(_) => 0,
            OperandIndex::Imm64(_) => 1,
            OperandIndex::Relative(_) => 2,
            OperandIndex::RelativePlusImm(_, _) => 3,
        };
        let shift: u32 = 22 + (i as u32) * 3;
        token = token | (repr << shift);
        i = i + 1;
    }
    out.push(token);
    if has_extended {
        let mut ext: u32 = 1;
        if op.negate {
            ext = ext | (1u32 << 6);
        }
        if op.abs {
            ext = ext | (1u32 << 7);
        }
        out.push(ext);
    }
    proof {
        assert(out@ =~= before + operand_head(op@));
    }
    let ghost head = out@;
    if op.indices.len() == 0 && (op.reg_type == RegisterType::Immediate32 || op.reg_type == RegisterType::Immediate64) {
        push_words(out, op.immediate_values.as_slice());
        proof {
            assert(out@ =~= before + operand_words(op@));
        }
        return;
    }
    let mut k: usize = 0;
    proof {
        assert(head + indices_words(levels, 0) =~= head);
    }
    while k < op.indices.len()
        invariant
            k <= op.indices@.len(),
            levels == op@.indices,
            levels.len() == op.indices@.len(),
            index_levels_fit(op@),
            out@ == head + indices_words(levels, k as nat),
        decreases op.indices@.len() - k,
    {
        proof {
            assert(levels[k as int] == op.indices@[k as int]@);
            lemma_level_fits(levels, levels.len(), k as int);
        }
        encode_index(&op.indices[k], out);
        k = k + 1;
        proof {
            assert(out@ =~= head + indices_words(levels, k as nat));
        }
    }
    proof {
        assert(out@ =~= before + operand_words(op@));
    }
}

/// Encode one index level.
fn encode_index(idx: &OperandIndex, out: &mut Vec<u32>)
    requires
        index_level_fits(idx@),
    ensures
        final(out)@ == old(out)@ + index_words(idx@),
    decreases idx,
{
    match idx {
        OperandIndex::Imm32(v) => {
            out.push(*v);
        },
        OperandIndex::Imm64(v) => {
            out.push(*v as u32);
            out.push((*v >> 32) as u32);
        },
        OperandIndex::Relative(sub) => {
            encode_one_operand(sub, out);
        },
        OperandIndex::RelativePlusImm(imm, sub) => {
            out.push(*imm);
            encode_one_operand(sub, out);
        },
    }
    proof {
        assert(out@ =~= old(out)@ + index_words(idx@));
    }
}

/// Pack four return types into one word.
fn encode_return_type_token(rt: &[ReturnType; 4]) -> (r: u32)
    ensures
        r == return_type_word(*rt),
{
    rt[0].to_u32() | (rt[1].to_u32() << 4) | (rt[2].to_u32() << 8) | (rt[3].to_u32() << 12)
}

/// The extended tokens of an instruction, chained by their bit 31.
fn build_extended_tokens(instr: &Instruction) -> (r: Vec<u32>)
    ensures
        r@ == extended_words(instr@),
{
    let mut tokens: Vec<u32> = Vec::new();
    if let Some(offsets) = &instr.tex_offsets {
        let u: u32 = (offsets[0] as u32) & 0xF;
        let v: u32 = (offsets[1] as u32) & 0xF;
        let w: u32 = (offsets[2] as u32) & 0xF;
        tokens.push(1u32 | (u << 9) | (v << 13) | (w << 17));
    }
    if let Some(raw) = instr.resource_dim {
        tokens.push(raw & 0x7FFF_FFFF);
    }
    if let Some(raw) = instr.resource_return_type {
        tokens.push(raw & 0x7FFF_FFFF);
    }
    let ghost loose = loose_extended(instr@);
    proof {
        assert(tokens@ =~= loose);
    }
    let mut i: usize = 0;
    while i + 1 < tokens.len()
        invariant
            tokens@.len() == loose.len() <= 3,
            i <= tokens@.len(),
            forall|k: int| 0 <= k < i ==> tokens@[k] == loose[k] | (1u32 << 31),
            forall|k: int| i <= k < loose.len() ==> tokens@[k] == loose[k],
            i + 1 <= loose.len() || i == 0,
        decreases tokens@.len() - i,
    {
        let chained: u32 = tokens[i] | (1u32 << 31);
        tokens.set(i, chained);
        i = i + 1;
    }
    proof {
        assert(tokens@ =~= extended_words(instr@));
    }
    tokens
}

} // verus!
