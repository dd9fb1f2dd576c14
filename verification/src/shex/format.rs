//! Where the fields of the tokens lie, as numbers: what decoding takes from a word and what encoding puts into one.
use crate::shex::decode::{
    components_of, dimension_text, domain_text, extended_by, flag_list, index_at, instruction_of, interpolation_text, kind_of,
    length_at, operand_at, operands_from, output_primitive_text, partitioning_text, program_of, return_types, sampler_text,
    stage_text, Extended,
};
use crate::shex::encode::{index_levels_fit, operand_head, operand_words};
use crate::shex::ir::{
    system_value_text, ComponentSelect, GsOutputTopology, GsPrimitive, IndexModel, KindModel, OperandModel, RegisterType,
    ReturnType,
};
use crate::bytes::le32;
use crate::shex::opcodes::Opcode;
use vstd::prelude::*;

verus! {

proof fn lemma_operand_fields(t: u32)
    by (bit_vector)
    ensures
        t & 0x3 == t % 4,
        (t >> 2) & 0x3 == (t / 4) % 4,
        (t >> 4) & 0xF == (t / 16) % 16,
        (t >> 4) & 0x3 == (t / 16) % 4,
        (t >> 6) & 0x3 == (t / 64) % 4,
        (t >> 8) & 0x3 == (t / 256) % 4,
        (t >> 10) & 0x3 == (t / 1024) % 4,
        (t >> 12) & 0xFF == (t / 4096) % 256,
        (t >> 20) & 0x3 == (t / 1048576) % 4,
        (t >> 22) & 0x7 == (t / 4194304) % 8,
        (t >> 25) & 0x7 == (t / 33554432) % 8,
        (t >> 28) & 0x7 == (t / 268435456) % 8,
        ((t >> 31u32) & 1 != 0) == (t >= 0x8000_0000),
        ((t >> 6u32) & 1 != 0) == ((t / 64) % 2 == 1),
        ((t >> 7u32) & 1 != 0) == ((t / 128) % 2 == 1),
{
}

proof fn lemma_instruction_fields(t: u32)
    by (bit_vector)
    ensures
        t & 0x7FF == t % 2048,
        ((t >> 13u32) & 1 != 0) == ((t / 8192) % 2 == 1),
        ((t >> 18u32) & 1 != 0) == ((t / 262144) % 2 == 1),
        (t >> 19) & 0xF == (t / 524288) % 16,
        (t >> 11) & 0x3 == (t / 2048) % 4,
        (t >> 11) & 0xF == (t / 2048) % 16,
        (t >> 11) & 0x1F == (t / 2048) % 32,
        (t >> 11) & 0x3F == (t / 2048) % 64,
        (t >> 11) & 0x7 == (t / 2048) % 8,
        (t >> 16) & 0x7F == (t / 65536) % 128,
        (t >> 16) & 0xFF == (t / 65536) % 256,
        (t >> 24) & 0x7F == (t / 16777216) % 128,
        ((t >> 31u32) & 1 != 0) == (t >= 0x8000_0000),
        t & 0x3F == t % 64,
        (t >> 9) & 0xF == (t / 512) % 16,
        (t >> 13) & 0xF == (t / 8192) % 16,
        (t >> 17) & 0xF == (t / 131072) % 16,
        t & 0xF == t % 16,
        (t >> 4) & 0xF == (t / 16) % 16,
        (t >> 8) & 0xF == (t / 256) % 16,
        (t >> 12) & 0xF == (t / 4096) % 16,
        (t >> 16) & 0xFFFF == t / 65536,
{
}

/// The token of an operand: its register type is the byte from bit 12 on, how many index levels it has are bits 20 and 21,
/// and bit 31 says that a word of modifiers follows. In that word bit 6 negates and bit 7 takes the absolute value, and
/// without it there is neither.
#[verifier::spinoff_prover]
#[verifier::rlimit(40)]
pub proof fn law_operand_token_layout(t: Seq<u32>, pos: nat)
    requires
        pos < t.len(),
    ensures
        ({
            let token = t[pos as int];
            let op = operand_at(t, pos).0;
            let modifiers = t[pos as int + 1];
            &&& op.reg_type == RegisterType::of((token / 4096) % 256)
            &&& op.indices.len() == (token / 1048576) % 4
            &&& token < 0x8000_0000 ==> !op.negate && !op.abs
            &&& token >= 0x8000_0000 && pos + 1 < t.len() ==> {
                &&& op.negate <==> (modifiers / 64) % 2 == 1
                &&& op.abs <==> (modifiers / 128) % 2 == 1
            }
            &&& token >= 0x8000_0000 && pos + 1 < t.len() && modifiers == 0x41 ==> op.negate && !op.abs
            &&& token >= 0x8000_0000 && pos + 1 < t.len() && modifiers == 0x81 ==> !op.negate && op.abs
            &&& token >= 0x8000_0000 && pos + 1 < t.len() && modifiers == 0xC1 ==> op.negate && op.abs
        }),
{
    lemma_operand_fields(t[pos as int]);
    if pos + 1 < t.len() {
        lemma_operand_fields(t[pos as int + 1]);
    }
}

/// The data of an operand: the levels of its index stand behind its token and modifiers, each written as the three bits say
/// that stand for it from bit 22 on; without levels there are immediate words, one of a scalar or four of a vector, each
/// twice as long where they are of 64 bits.
#[verifier::spinoff_prover]
#[verifier::rlimit(40)]
pub proof fn law_operand_data_layout(t: Seq<u32>, pos: nat)
    requires
        pos < t.len(),
    ensures
        ({
            let token = t[pos as int];
            let op = operand_at(t, pos).0;
            let head: nat = if token >= 0x8000_0000 && pos + 1 < t.len() { 2 } else { 1 };
            let levels = (token / 1048576) % 4;
            let kind = (token / 4096) % 256;
            let lanes: int = if token % 4 == 1 { 1 } else if token % 4 == 2 && (token / 4) % 4 < 3 { 4 } else { 0 };
            let n0 = index_at(t, pos + head, (token / 4194304) % 8).1;
            let n1 = index_at(t, pos + head + n0, (token / 33554432) % 8).1;
            &&& levels >= 1 ==> op.indices[0] == index_at(t, pos + head, (token / 4194304) % 8).0
            &&& levels >= 2 ==> op.indices[1] == index_at(t, pos + head + n0, (token / 33554432) % 8).0
            &&& levels >= 3 ==> op.indices[2] == index_at(t, pos + head + n0 + n1, (token / 268435456) % 8).0
            &&& levels >= 1 ==> op.immediate_values.len() == 0
            &&& levels == 0 ==> {
                let wanted = if kind == 4 { lanes } else if kind == 5 { 2 * lanes } else { 0 };
                &&& pos + head + wanted <= t.len() ==> op.immediate_values.len() == wanted
                &&& forall|i: int|
                    0 <= i < op.immediate_values.len() ==> #[trigger] op.immediate_values[i] == t[pos + head + i]
            }
        }),
{
    lemma_operand_fields(t[pos as int]);
    law_components_layout(t[pos as int]);
}

/// The components that a token selects: bits 0 and 1 say whether there are none, one or four, bits 2 and 3 whether four are
/// masked, swizzled or one of them is taken, and from bit 4 on stand the four mask bits, the four two-bit selectors with
/// that of the first lane lowest, or the one selector.
pub proof fn law_components_layout(token: u32)
    ensures
        token % 4 == 0 || token % 4 == 3 ==> components_of(token) is ZeroComponent,
        token % 4 == 1 ==> components_of(token) is OneComponent,
        token % 4 == 2 && (token / 4) % 4 == 0 ==> components_of(token) == ComponentSelect::Mask(((token / 16) % 16) as u8),
        token % 4 == 2 && (token / 4) % 4 == 1 ==> components_of(token) is Swizzle && {
            let lanes = components_of(token)->Swizzle_0;
            &&& lanes[0] == (token / 16) % 4
            &&& lanes[1] == (token / 64) % 4
            &&& lanes[2] == (token / 256) % 4
            &&& lanes[3] == (token / 1024) % 4
        },
        token % 4 == 2 && (token / 4) % 4 == 2 ==> components_of(token) == ComponentSelect::Scalar(((token / 16) % 4) as u8),
        token % 4 == 2 && (token / 4) % 4 == 3 ==> components_of(token) is ZeroComponent,
{
    lemma_operand_fields(token);
}

/// An index level: a word, two words with the low one first, an operand, or a word and the operand that is added to it.
pub proof fn law_index_layout(t: Seq<u32>, pos: nat)
    requires
        pos + 1 < t.len(),
    ensures
        index_at(t, pos, 0).0 == IndexModel::Imm32(t[pos as int]),
        index_at(t, pos, 1).0 is Imm64,
        index_at(t, pos, 1).0->Imm64_0 == t[pos as int] + 0x1_0000_0000 * t[pos as int + 1],
        index_at(t, pos, 2).0 == IndexModel::Relative(Box::new(operand_at(t, pos).0)),
        index_at(t, pos, 3).0 == IndexModel::RelativePlusImm(t[pos as int], Box::new(operand_at(t, pos + 1).0)),
        index_at(t, pos, 0).1 == 1,
        index_at(t, pos, 1).1 == 2,
        index_at(t, pos, 2).1 == operand_at(t, pos).1,
        index_at(t, pos, 3).1 == 1 + operand_at(t, pos + 1).1,
{
    let (lo, hi) = (t[pos as int], t[pos as int + 1]);
    assert((lo as u64) | ((hi as u64) << 32) == lo + 0x1_0000_0000 * hi) by (bit_vector);
}

/// The word of modifiers that encoding writes: 0x41 negates, 0x81 takes the absolute value, 0xC1 does both, and an operand
/// with neither has no such word. Bit 31 of the token says whether there is one.
pub proof fn law_modifier_words(op: OperandModel)
    requires
        index_levels_fit(op),
    ensures
        op.negate && !op.abs ==> operand_words(op).len() >= 2 && operand_words(op)[1] == 0x41,
        !op.negate && op.abs ==> operand_words(op).len() >= 2 && operand_words(op)[1] == 0x81,
        op.negate && op.abs ==> operand_words(op).len() >= 2 && operand_words(op)[1] == 0xC1,
        operand_head(op).len() == (if op.negate || op.abs { 2nat } else { 1nat }),
{
    assert(1u32 | (1u32 << 6) == 0x41 && 1u32 | (1u32 << 7) == 0x81 && 0x41u32 | (1u32 << 7) == 0xC1) by (bit_vector);
    let head = operand_head(op);
    let words = operand_words(op);
    assert(words.take(head.len() as int) =~= head);
    if op.negate || op.abs {
        assert(words[1] == head[1]);
    }
}

/// The first token of an instruction: bit 13 saturates, bit 18 says that a condition is taken on a value other than nought,
/// the precise components are the four bits from 19 on, and what `resinfo` returns and what `sync` waits for stand from
/// bit 11 on.
pub proof fn law_instruction_token_layout(t: Seq<u32>, op: Opcode)
    requires
        t.len() > 0,
    ensures
        ({
            let token = t[0];
            let i = instruction_of(t, op);
            &&& i.opcode == op
            &&& i.saturate <==> !(op is Sync) && (token / 8192) % 2 == 1
            &&& i.test_nonzero <==> (token / 262144) % 2 == 1 && (op is If || op is Breakc || op is Callc || op is Continuec
                || op is Discard || op is Retc)
            &&& i.precise_mask == (token / 524288) % 16
            &&& op is Resinfo ==> i.resinfo_return_type == Some((token / 2048) % 4)
            &&& !(op is Resinfo) ==> i.resinfo_return_type is None
            &&& op is Sync ==> i.sync_flags == (token / 2048) % 16
            &&& !(op is Sync) ==> i.sync_flags == 0
        }),
{
    lemma_instruction_fields(t[0]);
    let (a, b) = ((t[0] / 524288) % 16, (t[0] / 2048) % 16);
    assert(a < 256 && b < 256);
}

/// An extended token: bits 0 to 5 say what it holds. Sample offsets are three numbers of four bits each from bit 9 on, in
/// two's complement; a resource's dimension and return type are the token itself. None takes away what another said.
pub proof fn law_extended_token_layout(known: Extended, ext: u32)
    ensures
        ext % 64 == 1 ==> extended_by(known, ext).tex_offsets is Some && {
            let o = extended_by(known, ext).tex_offsets->0;
            &&& -8 <= o[0] < 8 && (o[0] - (ext / 512) % 16) % 16 == 0
            &&& -8 <= o[1] < 8 && (o[1] - (ext / 8192) % 16) % 16 == 0
            &&& -8 <= o[2] < 8 && (o[2] - (ext / 131072) % 16) % 16 == 0
        },
        ext % 64 == 2 ==> extended_by(known, ext).resource_dim == Some(ext),
        ext % 64 == 3 ==> extended_by(known, ext).resource_return_type == Some(ext),
        ext % 64 != 1 ==> extended_by(known, ext).tex_offsets == known.tex_offsets,
        ext % 64 != 2 ==> extended_by(known, ext).resource_dim == known.resource_dim,
        ext % 64 != 3 ==> extended_by(known, ext).resource_return_type == known.resource_return_type,
{
    lemma_instruction_fields(ext);
}

/// Four return types in a word: four bits each, that of the first component lowest.
pub proof fn law_return_type_layout(rt: u32)
    ensures
        return_types(rt)[0] == ReturnType::of(rt % 16),
        return_types(rt)[1] == ReturnType::of((rt / 16) % 16),
        return_types(rt)[2] == ReturnType::of((rt / 256) % 16),
        return_types(rt)[3] == ReturnType::of((rt / 4096) % 16),
{
    lemma_instruction_fields(rt);
}

/// How many words an instruction takes: its token says so in the seven bits from 24 on, where nought stands for one, and
/// custom data in the word behind its token.
pub proof fn law_instruction_length_layout(data: Seq<u8>, offset: nat, end: nat)
    requires
        offset + 8 <= end <= data.len(),
    ensures
        ({
            let token = le32(data, offset as int);
            let n = (token / 16777216) % 128;
            &&& Opcode::of(token % 2048) is CustomData ==> length_at(data, offset, end) == le32(data, offset as int + 4)
            &&& !(Opcode::of(token % 2048) is CustomData) ==> length_at(data, offset, end) == if n == 0 {
                1
            } else {
                n as int
            }
        }),
{
    lemma_instruction_fields(le32(data, offset as int));
}

/// The version word of a program: the stage is its upper half, the major version the four bits from bit 4 on and the minor
/// one the four lowest.
pub proof fn law_version_layout(data: Seq<u8>, fourcc: [u8; 4])
    requires
        data.len() >= 8,
    ensures
        program_of(data, fourcc).shader_type == stage_text(le32(data, 0) / 65536),
        program_of(data, fourcc).major_version == (le32(data, 0) / 16) % 16,
        program_of(data, fourcc).minor_version == le32(data, 0) % 16,
        program_of(data, fourcc).fourcc == fourcc,
{
    lemma_instruction_fields(le32(data, 0));
}

/// A declaration of a resource: its dimension is in bits 11 to 15 of its token, its sample count in bits 16 to 22, and its
/// return types are its last word. A view that is written has its flags in bits 16 to 23.
pub proof fn law_resource_declaration_layout(t: Seq<u32>)
    requires
        t.len() >= 3,
    ensures
        ({
            let k = kind_of(t, Opcode::DclResource);
            &&& k is DclResource
            &&& k->DclResource_dimension == dimension_text((t[0] / 2048) % 32)
            &&& k->sample_count == (t[0] / 65536) % 128
            &&& k->DclResource_return_type == return_types(t[t.len() - 1])
            &&& k->DclResource_operands == operands_from(t.take(t.len() - 1), 1)
        }),
        ({
            let k = kind_of(t, Opcode::DclUnorderedAccessViewTyped);
            &&& k is DclUavTyped
            &&& k->DclUavTyped_dimension == dimension_text((t[0] / 2048) % 32)
            &&& k->DclUavTyped_flags == (t[0] / 65536) % 256
            &&& k->DclUavTyped_return_type == return_types(t[t.len() - 1])
            &&& k->DclUavTyped_operands == operands_from(t.take(t.len() - 1), 1)
        }),
        ({
            let k = kind_of(t, Opcode::DclUnorderedAccessViewStructured);
            &&& k is DclUavStructured
            &&& k->DclUavStructured_flags == (t[0] / 65536) % 256
            &&& k->DclUavStructured_stride == t[t.len() - 1]
            &&& k->DclUavStructured_operands == operands_from(t.take(t.len() - 1), 1)
        }),
        ({
            let k = kind_of(t, Opcode::DclUnorderedAccessViewRaw);
            &&& k is DclUavRaw
            &&& k->DclUavRaw_flags == (t[0] / 65536) % 256
            &&& k->DclUavRaw_operands == operands_from(t, 1)
        }),
        ({
            let k = kind_of(t, Opcode::DclResourceStructured);
            &&& k is DclResourceStructured
            &&& k->DclResourceStructured_stride == t[t.len() - 1]
            &&& k->DclResourceStructured_operands == operands_from(t.take(t.len() - 1), 1)
        }),
        ({
            let k = kind_of(t, Opcode::DclIndexRange);
            &&& k is DclIndexRange
            &&& k->DclIndexRange_count == t[t.len() - 1]
            &&& k->DclIndexRange_operands == operands_from(t.take(t.len() - 1), 1)
        }),
{
    lemma_instruction_fields(t[0]);
    assert(t.drop_last() =~= t.take(t.len() - 1));
}

/// A declaration that states numbers states them in the words behind its token.
pub proof fn law_counting_declaration_layout(t: Seq<u32>)
    requires
        t.len() >= 4,
    ensures
        kind_of(t, Opcode::DclTemps) == (KindModel::DclTemps { count: t[1] }),
        kind_of(t, Opcode::DclIndexableTemp) == (KindModel::DclIndexableTemp { reg: t[1], size: t[2], components: t[3] }),
        kind_of(t, Opcode::DclThreadGroup) == (KindModel::DclThreadGroup { x: t[1], y: t[2], z: t[3] }),
        kind_of(t, Opcode::DclMaxOutputVertexCount) == (KindModel::DclMaxOutputVertexCount { count: t[1] }),
        kind_of(t, Opcode::DclGsInstanceCount) == (KindModel::DclGsInstanceCount { count: t[1] }),
        kind_of(t, Opcode::DclHsMaxTessFactor) == (KindModel::DclHsMaxTessFactor { value: t[1] }),
        kind_of(t, Opcode::DclHsForkPhaseInstanceCount) == (KindModel::DclHsForkPhaseInstanceCount { count: t[1] }),
        kind_of(t, Opcode::DclHsJoinPhaseInstanceCount) == (KindModel::DclHsForkPhaseInstanceCount { count: t[1] }),
        kind_of(t, Opcode::DclFunctionBody) == (KindModel::DclFunctionBody { index: t[1] }),
        kind_of(t, Opcode::DclFunctionTable) is DclFunctionTable,
        kind_of(t, Opcode::DclFunctionTable)->table_index == t[1],
        3 + t[2] <= t.len() ==> kind_of(t, Opcode::DclFunctionTable)->body_indices =~= t.subrange(3, 3 + t[2]),
        kind_of(t, Opcode::DclInterface) is DclInterface,
        kind_of(t, Opcode::DclInterface)->interface_index == t[1],
        kind_of(t, Opcode::DclInterface)->num_call_sites == t[2],
        4 + t[3] <= t.len() ==> kind_of(t, Opcode::DclInterface)->table_indices =~= t.subrange(4, 4 + t[3]),
{
}

/// A declaration that states a mode states it from bit 11 of its token on.
pub proof fn law_mode_declaration_layout(t: Seq<u32>)
    requires
        t.len() >= 1,
    ensures
        ({
            let mode = t[0] / 2048;
            &&& kind_of(t, Opcode::DclSampler) == (KindModel::DclSampler {
                mode: sampler_text(mode % 16),
                operands: operands_from(t, 1),
            })
            &&& kind_of(t, Opcode::DclConstantBuffer) == (KindModel::DclConstantBuffer {
                access: if mode % 2 == 1 { "dynamicIndexed"@ } else { "immediateIndexed"@ },
                operands: operands_from(t, 1),
            })
            &&& kind_of(t, Opcode::DclGsInputPrimitive) == (KindModel::DclGsInputPrimitive {
                primitive: GsPrimitive::of(mode % 64),
            })
            &&& kind_of(t, Opcode::DclGsOutputPrimitiveTopology) == (KindModel::DclGsOutputTopology {
                topology: GsOutputTopology::of(mode % 16),
            })
            &&& kind_of(t, Opcode::DclOutputControlPointCount) == (KindModel::DclOutputControlPointCount {
                count: mode % 64,
            })
            &&& kind_of(t, Opcode::DclInputControlPointCount) == (KindModel::DclInputControlPointCount { count: mode % 64 })
            &&& kind_of(t, Opcode::DclTessDomain) == (KindModel::DclTessDomain { domain: domain_text(mode % 4) })
            &&& kind_of(t, Opcode::DclTessPartitioning) == (KindModel::DclTessPartitioning {
                partitioning: partitioning_text(mode % 8),
            })
            &&& kind_of(t, Opcode::DclTessOutputPrimitive) == (KindModel::DclTessOutputPrimitive {
                primitive: output_primitive_text(mode % 8),
            })
            &&& kind_of(t, Opcode::DclGlobalFlags) == (KindModel::DclGlobalFlags { flags: flag_list(mode % 8192) })
        }),
{
    lemma_instruction_fields(t[0]);
    let w = t[0];
    assert((w >> 11) & 1 == (w / 2048) % 2 && (w >> 11) & 0x1FFF == (w / 2048) % 8192) by (bit_vector);
}

/// A declaration of an input or output: a pixel shader's input states how it is interpolated in bits 11 to 14, and one with
/// a system value ends in the number of it.
pub proof fn law_input_declaration_layout(t: Seq<u32>)
    requires
        t.len() >= 3,
    ensures
        kind_of(t, Opcode::DclInput) == (KindModel::DclInput {
            interpolation: None,
            system_value: None,
            operands: operands_from(t, 1),
        }),
        kind_of(t, Opcode::DclInputPs) == (KindModel::DclInput {
            interpolation: Some(interpolation_text((t[0] / 2048) % 16)),
            system_value: None,
            operands: operands_from(t, 1),
        }),
        kind_of(t, Opcode::DclInputSiv) == (KindModel::DclInput {
            interpolation: None,
            system_value: Some(system_value_text(t[t.len() - 1])),
            operands: operands_from(t.take(t.len() - 1), 1),
        }),
        kind_of(t, Opcode::DclInputSgv) == kind_of(t, Opcode::DclInputSiv),
        kind_of(t, Opcode::DclInputPsSiv) == (KindModel::DclInput {
            interpolation: Some(interpolation_text((t[0] / 2048) % 16)),
            system_value: Some(system_value_text(t[t.len() - 1])),
            operands: operands_from(t.take(t.len() - 1), 1),
        }),
        kind_of(t, Opcode::DclInputPsSgv) == kind_of(t, Opcode::DclInputPsSiv),
        kind_of(t, Opcode::DclOutput) == (KindModel::DclOutput { system_value: None, operands: operands_from(t, 1) }),
        kind_of(t, Opcode::DclOutputSiv) == (KindModel::DclOutput {
            system_value: Some(system_value_text(t[t.len() - 1])),
            operands: operands_from(t.take(t.len() - 1), 1),
        }),
        kind_of(t, Opcode::DclOutputSgv) == kind_of(t, Opcode::DclOutputSiv),
{
    lemma_instruction_fields(t[0]);
    assert(t.drop_last() =~= t.take(t.len() - 1));
}

} // verus!
