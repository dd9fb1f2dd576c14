//! What bytes decode to a program that encodes to them.
use crate::bytes::{bytes32, le32};
use crate::shex::decode::{
    behind_extended, bit, components_of, conditional, declares_input, declares_input_value, declares_output,
    declares_output_value, declares_pixel_input, dimension_text, domain_text, extended_from, extended_of,
    immediate_words, index_at, instruction_of, interpolation_text, kind_of, left, length_at, operand_at, operands_from,
    operands_start, output_primitive_text, partitioning_text, program_of, return_types, rows_of, sampler_text, sign4,
    stage_text, stream, words_at, words_from, Extended,
};
use crate::shex::encode::{
    control_bits, dimension_value, domain_value, extended_words, immediate, index_words, indices_words,
    instruction_words, interpolation_value, kind_words, loose_extended, offsets_word, opdata, operand_head,
    operand_words, operands_words, output_primitive_value, partitioning_value, plain_token, program_bytes,
    program_words, representation, return_type_word, rows_words, sampler_value, select_bits, stage_value, stream_words,
    system_value_value, with_representations, words_bytes,
};
use crate::shex::ir::{
    law_registertype_keeps_raw, law_returntype_keeps_raw, system_value_text, CustomDataType, GsOutputTopology,
    GsPrimitive, IndexModel, InstructionModel, OperandModel,
};
use crate::shex::opcodes::{law_opcode_keeps_value, Opcode};
use crate::shex::roundtrip::{generic, lemma_flags_read, lemma_rows_laid};
use vstd::prelude::*;

verus! {

/// The selection bits of an operand token are a selection's own: a count of components that there is, a mode that there
/// is, and nothing where the mode has no bits.
pub open spec fn selection_canonical(token: u32) -> bool {
    let mode = (token >> 2) & 3;
    if token & 3 == 2 {
        (mode == 0 && token & 0xF00 == 0) || mode == 1 || (mode == 2 && token & 0xFC0 == 0)
    } else {
        token & 3 != 3 && token & 0xFFC == 0
    }
}

/// An operand stands whole at a place, and each of its words says nothing but what an operand says.
pub open spec fn operand_canonical(t: Seq<u32>, pos: nat) -> bool
    decreases left(t, pos), 0nat,
{
    pos < t.len() && {
        let token = t[pos as int];
        let dims = (token >> 20) & 3;
        let extended = bit(token, 31);
        let head: nat = if extended {
            2
        } else {
            1
        };
        &&& selection_canonical(token)
        &&& extended ==> pos + 1 < t.len() && (t[pos as int + 1] == 0x41 || t[pos as int + 1] == 0x81 || t[pos as int + 1]
            == 0xC1)
        &&& dims < 3 ==> (token >> 28) & 7 == 0
        &&& dims < 2 ==> (token >> 25) & 7 == 0
        &&& if dims == 0 {
            (token >> 22) & 7 == 0 && pos + head + immediate_words((token >> 12) & 0xFF, components_of(token).count())
                <= t.len()
        } else {
            let n0 = index_at(t, pos + head, (token >> 22) & 7).1;
            let n1 = index_at(t, pos + head + n0, (token >> 25) & 7).1;
            &&& index_canonical(t, pos + head, (token >> 22) & 7)
            &&& dims > 1 ==> index_canonical(t, pos + head + n0, (token >> 25) & 7)
            &&& dims > 2 ==> index_canonical(t, pos + head + n0 + n1, (token >> 28) & 7)
        }
    }
}

/// An index level stands whole at a place.
pub open spec fn index_canonical(t: Seq<u32>, pos: nat, repr: u32) -> bool
    decreases left(t, pos), 1nat,
{
    if repr == 0 {
        pos < t.len()
    } else if repr == 1 {
        pos + 1 < t.len()
    } else if repr == 2 {
        operand_canonical(t, pos)
    } else if repr == 3 {
        pos < t.len() && operand_canonical(t, pos + 1)
    } else {
        false
    }
}

/// Operands stand one behind the other from a place to the end.
pub open spec fn operands_canonical(t: Seq<u32>, pos: nat) -> bool
    decreases left(t, pos),
{
    pos == t.len() || {
        let n = operand_at(t, pos).1;
        pos < t.len() && n > 0 && operand_canonical(t, pos) && operands_canonical(t, pos + n)
    }
}

proof fn lemma_selection_bits(token: u32)
    by (bit_vector)
    ensures
        token & 3 == 0 && token & 0xFFC == 0 ==> 0u32 | 0u32 == token & 0xFFF,
        token & 3 == 1 && token & 0xFFC == 0 ==> 1u32 | 0u32 == token & 0xFFF,
        token & 3 == 2 && (token >> 2) & 3 == 0 && token & 0xF00 == 0 ==> 2u32 | ((((token >> 4) & 0xF) as u8 as u32)
            << 4) == token & 0xFFF,
        token & 3 == 2 && (token >> 2) & 3 == 1 ==> 2u32 | ((1u32 << 2) | ((((((token >> 4) & 3) as u8) as u32) | ((((
        token >> 6) & 3) as u8 as u32) << 2) | ((((token >> 8) & 3) as u8 as u32) << 4) | ((((token >> 10)
            & 3) as u8 as u32) << 6)) << 4)) == token & 0xFFF,
        token & 3 == 2 && (token >> 2) & 3 == 2 && token & 0xFC0 == 0 ==> 2u32 | ((2u32 << 2) | ((((token >> 4)
            & 3) as u8 as u32) << 4)) == token & 0xFFF,
        (token >> 2) & 3 <= 3,
        token & 3 <= 3,
{
}

proof fn lemma_selection_back(token: u32)
    requires
        selection_canonical(token),
    ensures
        components_of(token).count() | select_bits(components_of(token)) == token & 0xFFF,
{
    lemma_selection_bits(token);
}

proof fn lemma_token_parts(t: u32, k: u32, n: u32)
    by (bit_vector)
    requires
        k == (t >> 12) & 0xFF,
        n == (t >> 20) & 3,
    ensures
        k & 0xFF == k,
        n & 3 == n,
        n <= 3,
        (t >> 31) & 1 == 0 && (t >> 28) & 7 == 0 && (t >> 25) & 7 == 0 && (t >> 22) & 7 == 0 ==> ((t & 0xFFF) | (k
            << 12)) | (n << 20) == t,
        (t >> 31) & 1 == 0 && (t >> 28) & 7 == 0 && (t >> 25) & 7 == 0 ==> (((t & 0xFFF) | (k << 12)) | (n << 20)) | (((
        t >> 22) & 7) << 22u32) == t,
        (t >> 31) & 1 == 0 && (t >> 28) & 7 == 0 ==> ((((t & 0xFFF) | (k << 12)) | (n << 20)) | (((t >> 22) & 7)
            << 22u32)) | (((t >> 25) & 7) << 25u32) == t,
        (t >> 31) & 1 == 0 ==> (((((t & 0xFFF) | (k << 12)) | (n << 20)) | (((t >> 22) & 7) << 22u32)) | (((t >> 25) & 7)
            << 25u32)) | (((t >> 28) & 7) << 28u32) == t,
        (t >> 31) & 1 != 0 && (t >> 28) & 7 == 0 && (t >> 25) & 7 == 0 && (t >> 22) & 7 == 0 ==> (((t & 0xFFF) | (k
            << 12)) | (n << 20)) | (1u32 << 31) == t,
        (t >> 31) & 1 != 0 && (t >> 28) & 7 == 0 && (t >> 25) & 7 == 0 ==> ((((t & 0xFFF) | (k << 12)) | (n << 20)) | (
        1u32 << 31)) | (((t >> 22) & 7) << 22u32) == t,
        (t >> 31) & 1 != 0 && (t >> 28) & 7 == 0 ==> (((((t & 0xFFF) | (k << 12)) | (n << 20)) | (1u32 << 31)) | (((t
            >> 22) & 7) << 22u32)) | (((t >> 25) & 7) << 25u32) == t,
        (t >> 31) & 1 != 0 ==> ((((((t & 0xFFF) | (k << 12)) | (n << 20)) | (1u32 << 31)) | (((t >> 22) & 7) << 22u32))
            | (((t >> 25) & 7) << 25u32)) | (((t >> 28) & 7) << 28u32) == t,
{
}

proof fn lemma_modifier_bits()
    by (bit_vector)
    ensures
        (0x41u32 >> 6) & 1 != 0,
        (0x41u32 >> 7) & 1 == 0,
        (0x81u32 >> 6) & 1 == 0,
        (0x81u32 >> 7) & 1 != 0,
        (0xC1u32 >> 6) & 1 != 0,
        (0xC1u32 >> 7) & 1 != 0,
        1u32 | (1u32 << 6) == 0x41,
        1u32 | (1u32 << 7) == 0x81,
        (1u32 | (1u32 << 6)) | (1u32 << 7) == 0xC1,
{
}

proof fn lemma_joined_halves(a: u32, b: u32)
    by (bit_vector)
    ensures
        ((a as u64) | ((b as u64) << 32)) as u32 == a,
        (((a as u64) | ((b as u64) << 32)) >> 32) as u32 == b,
{
}

/// The words of an index level that stands whole are its own.
proof fn lemma_index_back(t: Seq<u32>, pos: nat, repr: u32)
    requires
        index_canonical(t, pos, repr),
    ensures
        pos + index_at(t, pos, repr).1 <= t.len(),
        index_words(index_at(t, pos, repr).0) == t.subrange(pos as int, (pos + index_at(t, pos, repr).1) as int),
        representation(index_at(t, pos, repr).0) == repr,
    decreases left(t, pos), 1nat,
{
    let (idx, n) = index_at(t, pos, repr);
    if repr == 1 {
        lemma_joined_halves(t[pos as int], t[pos as int + 1]);
    } else if repr == 2 {
        lemma_operand_back(t, pos);
    } else if repr == 3 {
        lemma_operand_back(t, pos + 1);
    }
    assert(index_words(idx) =~= t.subrange(pos as int, (pos + n) as int));
}

/// What the words of up to three index levels are.
proof fn lemma_levels_joined(a: Seq<IndexModel>)
    ensures
        a.len() == 0 ==> indices_words(a, 0) == Seq::<u32>::empty(),
        a.len() == 1 ==> indices_words(a, 1) == index_words(a[0]),
        a.len() == 2 ==> indices_words(a, 2) == index_words(a[0]) + index_words(a[1]),
        a.len() == 3 ==> indices_words(a, 3) == index_words(a[0]) + index_words(a[1]) + index_words(a[2]),
{
    reveal_with_fuel(indices_words, 4);
    if a.len() >= 1 {
        assert(indices_words(a, 1) =~= index_words(a[0]));
    }
}

/// What the token of up to three index levels is.
proof fn lemma_levels_noted(token: u32, a: Seq<IndexModel>)
    ensures
        a.len() == 0 ==> with_representations(token, a, 0) == token,
        a.len() == 1 ==> with_representations(token, a, 1) == token | (representation(a[0]) << 22u32),
        a.len() == 2 ==> with_representations(token, a, 2) == token | (representation(a[0]) << 22u32) | (representation(
            a[1],
        ) << 25u32),
        a.len() == 3 ==> with_representations(token, a, 3) == token | (representation(a[0]) << 22u32) | (representation(
            a[1],
        ) << 25u32) | (representation(a[2]) << 28u32),
{
    reveal_with_fuel(with_representations, 4);
}

/// How many words the head of an operand takes.
spec fn head_len(t: Seq<u32>, pos: nat) -> nat {
    if bit(t[pos as int], 31) {
        2
    } else {
        1
    }
}

/// The head of an operand that stands whole is its own.
#[verifier::rlimit(40)]
#[verifier::spinoff_prover]
proof fn lemma_head_back(t: Seq<u32>, pos: nat)
    requires
        operand_canonical(t, pos),
        ({
            let (op, token) = (operand_at(t, pos).0, t[pos as int]);
            &&& op.indices.len() > 0 ==> representation(op.indices[0]) == (token >> 22) & 7
            &&& op.indices.len() > 1 ==> representation(op.indices[1]) == (token >> 25) & 7
            &&& op.indices.len() > 2 ==> representation(op.indices[2]) == (token >> 28) & 7
        }),
    ensures
        operand_head(operand_at(t, pos).0) == t.subrange(pos as int, (pos + head_len(t, pos)) as int),
{
    let op = operand_at(t, pos).0;
    let token = t[pos as int];
    let kind = (token >> 12) & 0xFF;
    let dims = (token >> 20) & 3;
    lemma_selection_back(token);
    lemma_token_parts(token, kind, dims);
    lemma_modifier_bits();
    law_registertype_keeps_raw(kind);
    lemma_levels_noted(plain_token(op), op.indices);
    assert(op.indices.len() == dims);
    assert(operand_head(op) =~= t.subrange(pos as int, (pos + head_len(t, pos)) as int));
}

/// The words of an operand that stands whole are its own.
#[verifier::rlimit(40)]
#[verifier::spinoff_prover]
proof fn lemma_operand_back(t: Seq<u32>, pos: nat)
    requires
        operand_canonical(t, pos),
    ensures
        operand_at(t, pos).1 > 0,
        pos + operand_at(t, pos).1 <= t.len(),
        operand_words(operand_at(t, pos).0) == t.subrange(pos as int, (pos + operand_at(t, pos).1) as int),
    decreases left(t, pos), 0nat,
{
    let (op, n) = operand_at(t, pos);
    let token = t[pos as int];
    let dims = (token >> 20) & 3;
    let head = head_len(t, pos);
    let n0 = index_at(t, pos + head, (token >> 22) & 7).1;
    let n1 = index_at(t, pos + head + n0, (token >> 25) & 7).1;
    let at = (pos + head) as int;
    let to = (pos + n) as int;
    lemma_token_parts(token, (token >> 12) & 0xFF, dims);
    lemma_levels_joined(op.indices);
    if dims == 0 {
        lemma_head_back(t, pos);
        law_registertype_keeps_raw((token >> 12) & 0xFF);
        assert(t.subrange(pos as int, at) + t.subrange(at, to) =~= t.subrange(pos as int, to));
        assert(immediate(op) ==> op.immediate_values =~= t.subrange(at, to));
        assert(!immediate(op) ==> n == head);
        assert(t.subrange(pos as int, at) + Seq::<u32>::empty() =~= t.subrange(pos as int, at));
    } else {
        lemma_index_back(t, pos + head, (token >> 22) & 7);
        if dims > 1 {
            lemma_index_back(t, pos + head + n0, (token >> 25) & 7);
        }
        if dims > 2 {
            lemma_index_back(t, pos + head + n0 + n1, (token >> 28) & 7);
        }
        lemma_head_back(t, pos);
        assert(op.indices.len() == dims);
        assert(indices_words(op.indices, op.indices.len()) =~= t.subrange(at, to));
        assert(t.subrange(pos as int, at) + t.subrange(at, to) =~= t.subrange(pos as int, to));
    }
}

proof fn lemma_operands_joined(one: OperandModel, rest: Seq<OperandModel>, n: nat)
    requires
        n <= rest.len(),
    ensures
        operands_words(seq![one] + rest, n + 1) == operand_words(one) + operands_words(rest, n),
    decreases n,
{
    let all = seq![one] + rest;
    reveal_with_fuel(operands_words, 2);
    if n == 0 {
        assert(all[0] == one);
        assert(operands_words(all, 1) =~= operand_words(one) + operands_words(rest, 0));
    } else {
        lemma_operands_joined(one, rest, (n - 1) as nat);
        assert(all[n as int] == rest[n - 1]);
        assert(operands_words(all, n + 1) =~= operand_words(one) + operands_words(rest, n));
    }
}

/// The words of operands that stand one behind the other are their own.
proof fn lemma_operands_back(t: Seq<u32>, pos: nat)
    requires
        operands_canonical(t, pos),
    ensures
        pos <= t.len(),
        operands_words(operands_from(t, pos), operands_from(t, pos).len()) == t.subrange(pos as int, t.len() as int),
    decreases left(t, pos),
{
    if pos < t.len() {
        let (op, n) = operand_at(t, pos);
        lemma_operand_back(t, pos);
        lemma_operands_back(t, pos + n);
        let rest = operands_from(t, pos + n);
        lemma_operands_joined(op, rest, rest.len());
        assert(t.subrange(pos as int, (pos + n) as int) + t.subrange((pos + n) as int, t.len() as int) =~= t.subrange(
            pos as int,
            t.len() as int,
        ));
    } else {
        assert(operands_words(operands_from(t, pos), 0) =~= t.subrange(pos as int, t.len() as int));
    }
}

/// Extended tokens from a place on, each of a type above the one before it, with bit 31 set on all but the last.
pub open spec fn chain_canonical(t: Seq<u32>, at: nat, above: u32) -> bool
    decreases left(t, at),
{
    at < t.len() && {
        let kind = t[at as int] & 0x3F;
        &&& above < kind <= 3
        &&& kind == 1 ==> t[at as int] & 0x7FE0_01C0 == 0
        &&& bit(t[at as int], 31) ==> chain_canonical(t, at + 1, kind)
    }
}

proof fn lemma_chain_bits(w: u32, a: u32, b: u32, c: u32)
    by (bit_vector)
    requires
        a == (w >> 9) & 0xF,
        b == (w >> 13) & 0xF,
        c == (w >> 17) & 0xF,
    ensures
        (w >> 31) & 1 == 0 ==> w & 0x7FFF_FFFF == w,
        (w >> 31) & 1 != 0 ==> (w & 0x7FFF_FFFF) | (1u32 << 31) == w,
        w & 0x3F == 1 && w & 0x7FE0_01C0 == 0 && (w >> 31) & 1 == 0 ==> ((1u32 | (a << 9)) | (b << 13)) | (c << 17) == w,
        w & 0x3F == 1 && w & 0x7FE0_01C0 == 0 && (w >> 31) & 1 != 0 ==> (((1u32 | (a << 9)) | (b << 13)) | (c << 17)) | (
        1u32 << 31) == w,
        a < 16,
        b < 16,
        c < 16,
{
}

proof fn lemma_sign_back(x: u32)
    requires
        x < 16,
    ensures
        (sign4(x) as u32) & 0xF == x,
{
    assert(x >= 8 && x < 16 ==> (((x - 16) as i8) as u32) & 0xF == x) by (bit_vector);
    assert(x < 8 ==> ((x as i8) as u32) & 0xF == x) by (bit_vector);
}

proof fn lemma_offsets_back(w: u32)
    requires
        w & 0x3F == 1,
        w & 0x7FE0_01C0 == 0,
    ensures
        !bit(w, 31) ==> offsets_word([sign4((w >> 9) & 0xF), sign4((w >> 13) & 0xF), sign4((w >> 17) & 0xF)]) == w,
        bit(w, 31) ==> offsets_word([sign4((w >> 9) & 0xF), sign4((w >> 13) & 0xF), sign4((w >> 17) & 0xF)]) | (1u32
            << 31) == w,
{
    let a = (w >> 9) & 0xF;
    let b = (w >> 13) & 0xF;
    let c = (w >> 17) & 0xF;
    lemma_chain_bits(w, a, b, c);
    lemma_sign_back(a);
    lemma_sign_back(b);
    lemma_sign_back(c);
}

/// An instruction keeps of its extended tokens what they say.
spec fn keeps_extended(i: InstructionModel, e: Extended) -> bool {
    i.tex_offsets == e.tex_offsets && i.resource_dim == e.resource_dim && i.resource_return_type
        == e.resource_return_type
}

/// The words of extended tokens that stand in a chain are their own.
#[verifier::rlimit(60)]
#[verifier::spinoff_prover]
proof fn lemma_chain_back(i: InstructionModel, t: Seq<u32>)
    requires
        t.len() > 0,
        bit(t[0], 31),
        chain_canonical(t, 1, 0),
        keeps_extended(i, extended_of(t)),
    ensures
        extended_words(i).len() > 0,
        operands_start(t) == 1 + extended_words(i).len(),
        operands_start(t) <= t.len(),
        extended_words(i) == t.subrange(1, operands_start(t) as int),
{
    reveal_with_fuel(chain_canonical, 4);
    reveal_with_fuel(extended_from, 4);
    reveal_with_fuel(behind_extended, 4);
    let a = t[1];
    lemma_chain_bits(a, (a >> 9) & 0xF, (a >> 13) & 0xF, (a >> 17) & 0xF);
    if a & 0x3F == 1 {
        lemma_offsets_back(a);
    }
    if bit(a, 31) {
        let b = t[2];
        lemma_chain_bits(b, (b >> 9) & 0xF, (b >> 13) & 0xF, (b >> 17) & 0xF);
        if bit(b, 31) {
            let c = t[3];
            lemma_chain_bits(c, (c >> 9) & 0xF, (c >> 13) & 0xF, (c >> 17) & 0xF);
            assert(loose_extended(i).len() == 3);
            assert(extended_words(i) =~= t.subrange(1, 4));
        } else {
            assert(loose_extended(i).len() == 2);
            assert(extended_words(i) =~= t.subrange(1, 3));
        }
    } else {
        assert(loose_extended(i).len() == 1);
        assert(extended_words(i) =~= t.subrange(1, 2));
    }
}

/// The bits of the first token that say more of an instruction than which it is and how long.
pub open spec fn data_mask(op: Opcode) -> u32 {
    if declares_input(op) {
        if declares_pixel_input(op) {
            0x3800
        } else {
            0
        }
    } else if op is DclGlobalFlags {
        0x7_F800
    } else if op is DclResource {
        0x7F_F800
    } else if op is DclUnorderedAccessViewTyped {
        0xFF_F800
    } else if op is DclUnorderedAccessViewRaw || op is DclUnorderedAccessViewStructured {
        0xFF_0000
    } else if op is DclSampler || op is DclTessDomain {
        0x1800
    } else if op is DclConstantBuffer {
        0x800
    } else if op is DclGsOutputPrimitiveTopology {
        0x7800
    } else if op is DclTessPartitioning || op is DclTessOutputPrimitive {
        0x3800
    } else if op is DclGsInputPrimitive || op is DclOutputControlPointCount || op is DclInputControlPointCount {
        0x1_F800
    } else {
        control_mask(op)
    }
}

/// The bits of the first token that control what an instruction does.
pub open spec fn control_mask(op: Opcode) -> u32 {
    let modes: u32 = if op is Sync {
        0x7800
    } else if op is Resinfo {
        0x3800
    } else {
        0x2000
    };
    modes | (if conditional(op) {
        0x4_0000u32
    } else {
        0
    }) | 0x78_0000
}

/// The first token says nothing that its instruction does not, and names only values that have a name.
pub open spec fn token_canonical(token: u32, op: Opcode) -> bool {
    let chained: u32 = if generic(op) {
        0x8000_0000
    } else {
        0
    };
    let field = token >> 11;
    &&& token & !(0x7F00_07FF | data_mask(op) | chained) == 0
    &&& op is DclResource || op is DclUnorderedAccessViewTyped ==> field & 0x1F <= 10
    &&& op is DclSampler ==> field & 0xF <= 2
    &&& op is DclGsInputPrimitive ==> GsPrimitive::of(field & 0x3F).raw() == field & 0x3F
    &&& op is DclGsOutputPrimitiveTopology ==> GsOutputTopology::of(field & 0xF).raw() == field & 0xF
    &&& op is DclTessPartitioning || op is DclTessOutputPrimitive ==> field & 7 <= 4
}

/// The words behind the first are all that the instruction has.
pub open spec fn body_canonical(t: Seq<u32>, op: Opcode) -> bool {
    if generic(op) {
        (bit(t[0], 31) ==> chain_canonical(t, 1, 0)) && operands_canonical(t, operands_start(t))
    } else if declares_input(op) || declares_output(op) {
        if (declares_input_value(op) || declares_output_value(op)) && t.len() >= 3 {
            system_value_value(system_value_text(t.last())) == t.last() && operands_canonical(t.drop_last(), 1)
        } else {
            operands_canonical(t, 1)
        }
    } else if op is DclResource || op is DclUnorderedAccessViewTyped {
        t.len() >= 3 && t.last() < 0x1_0000 && operands_canonical(t.drop_last(), 1)
    } else if op is DclUnorderedAccessViewStructured || op is DclResourceStructured || op is DclIndexRange {
        t.len() >= 3 && operands_canonical(t.drop_last(), 1)
    } else if op is DclUnorderedAccessViewRaw || op is DclResourceRaw || op is DclSampler || op is DclConstantBuffer {
        operands_canonical(t, 1)
    } else if op is DclTemps || op is DclMaxOutputVertexCount || op is DclGsInstanceCount || op is DclHsMaxTessFactor
        || op is DclHsForkPhaseInstanceCount || op is DclHsJoinPhaseInstanceCount || op is DclFunctionBody {
        t.len() == 2
    } else if op is DclIndexableTemp || op is DclThreadGroup {
        t.len() == 4
    } else if op is DclFunctionTable {
        t.len() >= 3 && t.len() == 3 + t[2]
    } else if op is DclInterface {
        t.len() >= 4 && t.len() == 4 + t[3]
    } else {
        t.len() == 1
    }
}

/// An instruction's words are as long as they say, and say nothing that its instruction does not.
#[verifier::opaque]
pub open spec fn instruction_canonical(t: Seq<u32>) -> bool {
    t.len() > 0 && {
        let op = Opcode::of(t[0] & 0x7FF);
        if op is CustomData {
            t.len() >= 2 && t[1] == t.len() && t[0] & 0xFFFF_0000 == 0
        } else {
            (t[0] >> 24) & 0x7F == t.len() && token_canonical(t[0], op) && body_canonical(t, op)
        }
    }
}

proof fn lemma_fields_back(t: u32)
    by (bit_vector)
    ensures
        ((t >> 11) & 0x3F) << 11 == t & 0x1_F800,
        ((t >> 11) & 0x1F) << 11 == t & 0xF800,
        ((t >> 11) & 0xF) << 11 == t & 0x7800,
        ((t >> 11) & 7) << 11 == t & 0x3800,
        ((t >> 11) & 3) << 11 == t & 0x1800,
        ((t >> 11) & 0xFF) << 11 == t & 0x7_F800,
        (t & 0xF800) | (((t >> 16) & 0x7F) << 16) == t & 0x7F_F800,
        (t & 0xF800) | (((t >> 16) & 0xFF) << 16) == t & 0xFF_F800,
        ((t >> 16) & 0xFF) << 16 == t & 0xFF_0000,
        ((t >> 11) & 0x3F) & 0x3F == (t >> 11) & 0x3F,
        ((t >> 11) & 0xF) & 0xF == (t >> 11) & 0xF,
        ((t >> 16) & 0x7F) & 0x7F == (t >> 16) & 0x7F,
        ((t >> 16) & 0xFF) & 0xFF == (t >> 16) & 0xFF,
        ((t >> 11) & 3) & 3 == (t >> 11) & 3,
        (t >> 11) & 1 != 0 ==> 1u32 << 11 == t & 0x800,
        (t >> 11) & 1 == 0 ==> 0 == t & 0x800,
        (t >> 11) & 7 <= 7,
        (t >> 11) & 3 <= 3,
        (t >> 11) & 0xFF < 256,
        t & 0 == 0,
{
}

proof fn lemma_stray_bits(t: u32)
    by (bit_vector)
    ensures
        t & !(0x7F00_07FFu32 | 0x3800 | 0) == 0 ==> (t >> 11) & 0xF == (t >> 11) & 7,
        t & !(0x7F00_07FFu32 | 0x1800 | 0) == 0 ==> (t >> 11) & 0xF == (t >> 11) & 3,
        t & !(0x7F00_07FFu32 | 0x7_F800 | 0) == 0 ==> (t >> 11) & 0x1FFF == (t >> 11) & 0xFF,
{
}

proof fn lemma_controls_back(t: u32, mode: u32, cond: bool)
    by (bit_vector)
    ensures
        ((((t >> 11) & 0xF) as u8 as u32) & 0xF) << 11 == t & 0x7800,
        (((t >> 11) & 3) & 3) << 11 == t & 0x1800,
        ((((t >> 19) & 0xF) as u8 as u32) & 0xF) << 19 == t & 0x78_0000,
        (if (t >> 13) & 1 != 0 { 1u32 << 13 } else { 0 }) == t & 0x2000,
        (if (t >> 18) & 1 != 0 { 1u32 << 18 } else { 0 }) == t & 0x4_0000,
        (t & 0x2000) | 0 == t & 0x2000,
        (t & 0x2000) | (t & 0x1800) == t & 0x3800,
        (t & mode) | (t & 0x4_0000) | (t & 0x78_0000) == t & (mode | 0x4_0000 | 0x78_0000),
        (t & mode) | 0 | (t & 0x78_0000) == t & (mode | 0 | 0x78_0000),
{
}

/// The controls of an instruction are the bits of its token.
proof fn lemma_control_bits_back(t: Seq<u32>, op: Opcode)
    requires
        t.len() > 0,
    ensures
        control_bits(instruction_of(t, op)) == t[0] & control_mask(op),
{
    let modes: u32 = if op is Sync {
        0x7800
    } else if op is Resinfo {
        0x3800
    } else {
        0x2000
    };
    lemma_controls_back(t[0], modes, conditional(op));
}

/// The names of dimensions stand for what they name.
proof fn lemma_dimensions_back(v: u32)
    requires
        v <= 10,
    ensures
        dimension_value(dimension_text(v)) == v,
{
    reveal_strlit("unknown");
    reveal_strlit("buffer");
    reveal_strlit("texture1d");
    reveal_strlit("texture2d");
    reveal_strlit("texture2dms");
    reveal_strlit("texture3d");
    reveal_strlit("texturecube");
    reveal_strlit("texture1darray");
    reveal_strlit("texture2darray");
    reveal_strlit("texture2dmsarray");
    reveal_strlit("texturecubearray");
    assert("unknown"@.len() == 7);
    assert("buffer"@.len() == 6);
    assert("texture1d"@.len() == 9 && "texture1d"@[7] == '1');
    assert("texture2d"@.len() == 9 && "texture2d"@[7] == '2');
    assert("texture2dms"@.len() == 11 && "texture2dms"@[7] == '2');
    assert("texture3d"@.len() == 9 && "texture3d"@[7] == '3');
    assert("texturecube"@.len() == 11 && "texturecube"@[7] == 'c');
    assert("texture1darray"@.len() == 14 && "texture1darray"@[7] == '1');
    assert("texture2darray"@.len() == 14 && "texture2darray"@[7] == '2');
    assert("texture2dmsarray"@.len() == 16 && "texture2dmsarray"@[7] == '2');
    assert("texturecubearray"@.len() == 16 && "texturecubearray"@[7] == 'c');
}

/// The names of interpolations stand for what they name.
proof fn lemma_interpolations_back(v: u32)
    requires
        v <= 7,
    ensures
        interpolation_value(interpolation_text(v)) == v,
{
    reveal_strlit("undefined");
    reveal_strlit("constant");
    reveal_strlit("linear");
    reveal_strlit("linearCentroid");
    reveal_strlit("linearNoperspective");
    reveal_strlit("linearNoperspectiveCentroid");
    reveal_strlit("linearSample");
    reveal_strlit("linearNoperspectiveSample");
    assert("undefined"@.len() == 9);
    assert("constant"@.len() == 8);
    assert("linear"@.len() == 6);
    assert("linearCentroid"@.len() == 14);
    assert("linearNoperspective"@.len() == 19);
    assert("linearNoperspectiveCentroid"@.len() == 27);
    assert("linearSample"@.len() == 12);
    assert("linearNoperspectiveSample"@.len() == 25);
}

/// The names of samplers stand for what they name.
proof fn lemma_samplers_back(v: u32)
    requires
        v <= 2,
    ensures
        sampler_value(sampler_text(v)) == v,
{
    reveal_strlit("default");
    reveal_strlit("comparison");
    reveal_strlit("mono");
    assert("default"@.len() == 7);
    assert("comparison"@.len() == 10);
    assert("mono"@.len() == 4);
}

/// The names of domains stand for what they name.
proof fn lemma_domains_back(v: u32)
    requires
        v <= 3,
    ensures
        domain_value(domain_text(v)) == v,
{
    reveal_strlit("undefined");
    reveal_strlit("isoline");
    reveal_strlit("tri");
    reveal_strlit("quad");
    assert("undefined"@.len() == 9);
    assert("isoline"@.len() == 7);
    assert("tri"@.len() == 3);
    assert("quad"@.len() == 4);
}

/// The names of partitionings stand for what they name.
proof fn lemma_partitionings_back(v: u32)
    requires
        v <= 4,
    ensures
        partitioning_value(partitioning_text(v)) == v,
{
    reveal_strlit("undefined");
    reveal_strlit("integer");
    reveal_strlit("pow2");
    reveal_strlit("fractional_odd");
    reveal_strlit("fractional_even");
    assert("undefined"@.len() == 9);
    assert("integer"@.len() == 7);
    assert("pow2"@.len() == 4);
    assert("fractional_odd"@.len() == 14);
    assert("fractional_even"@.len() == 15);
}

/// The names of output primitives stand for what they name.
proof fn lemma_output_primitives_back(v: u32)
    requires
        v <= 4,
    ensures
        output_primitive_value(output_primitive_text(v)) == v,
{
    reveal_strlit("undefined");
    reveal_strlit("point");
    reveal_strlit("line");
    reveal_strlit("triangle_cw");
    reveal_strlit("triangle_ccw");
    assert("undefined"@.len() == 9);
    assert("point"@.len() == 5);
    assert("line"@.len() == 4);
    assert("triangle_cw"@.len() == 11);
    assert("triangle_ccw"@.len() == 12);
}

/// The names of stages stand for what they name.
proof fn lemma_stages_back(v: u32)
    requires
        v <= 5,
    ensures
        stage_value(stage_text(v)) == v,
{
    reveal_strlit("ps");
    reveal_strlit("vs");
    reveal_strlit("gs");
    reveal_strlit("hs");
    reveal_strlit("ds");
    reveal_strlit("cs");
    assert("ps"@[0] == 'p');
    assert("vs"@[0] == 'v');
    assert("gs"@[0] == 'g');
    assert("hs"@[0] == 'h');
    assert("ds"@[0] == 'd');
    assert("cs"@[0] == 'c');
}

/// What the first token says of an instruction is what its bits say.
#[verifier::rlimit(60)]
#[verifier::spinoff_prover]
proof fn lemma_opdata_back(t: Seq<u32>, op: Opcode)
    requires
        t.len() > 0,
        !(op is CustomData),
        token_canonical(t[0], op),
    ensures
        opdata(instruction_of(t, op)) == t[0] & data_mask(op),
{
    let token = t[0];
    let field = token >> 11;
    lemma_fields_back(token);
    lemma_stray_bits(token);
    if declares_input(op) {
        if declares_pixel_input(op) {
            lemma_interpolations_back(field & 7);
        }
    } else if op is DclGlobalFlags {
        lemma_flags_read(field & 0xFF);
    } else if op is DclResource || op is DclUnorderedAccessViewTyped {
        lemma_dimensions_back(field & 0x1F);
    } else if op is DclSampler {
        lemma_samplers_back(field & 3);
    } else if op is DclTessDomain {
        lemma_domains_back(field & 3);
    } else if op is DclTessPartitioning {
        lemma_partitionings_back(field & 7);
    } else if op is DclTessOutputPrimitive {
        lemma_output_primitives_back(field & 7);
    } else if op is DclConstantBuffer {
        reveal_strlit("dynamicIndexed");
        reveal_strlit("immediateIndexed");
        assert("dynamicIndexed"@.len() == 14 && "immediateIndexed"@.len() == 16);
    } else {
        lemma_control_bits_back(t, op);
    }
}

proof fn lemma_return_bits(w: u32)
    by (bit_vector)
    requires
        w < 0x1_0000,
    ensures
        (w & 0xF) | (((w >> 4) & 0xF) << 4) | (((w >> 8) & 0xF) << 8) | (((w >> 12) & 0xF) << 12) == w,
{
}

/// The word of four return types is the one that they were read from.
proof fn lemma_return_types_back(w: u32)
    requires
        w < 0x1_0000,
    ensures
        return_type_word(return_types(w)) == w,
{
    lemma_return_bits(w);
    law_returntype_keeps_raw(w & 0xF);
    law_returntype_keeps_raw((w >> 4) & 0xF);
    law_returntype_keeps_raw((w >> 8) & 0xF);
    law_returntype_keeps_raw((w >> 12) & 0xF);
}

/// The words behind the first are those of what was read from them.
#[verifier::rlimit(60)]
#[verifier::spinoff_prover]
proof fn lemma_body_back(t: Seq<u32>, op: Opcode)
    requires
        t.len() > 0,
        !(op is CustomData),
        !generic(op),
        body_canonical(t, op),
    ensures
        kind_words(kind_of(t, op)) == t.subrange(1, t.len() as int),
{
    let rest = t.subrange(1, t.len() as int);
    let short = t.drop_last();
    if t.len() >= 3 && operands_canonical(short, 1) {
        lemma_operands_back(short, 1);
        assert(short.subrange(1, short.len() as int) + seq![t.last()] =~= rest);
    }
    if operands_canonical(t, 1) {
        lemma_operands_back(t, 1);
        assert(rest + Seq::<u32>::empty() =~= rest);
    }
    if op is DclResource || op is DclUnorderedAccessViewTyped {
        lemma_return_types_back(t.last());
    }
    if !(declares_input(op) || declares_output(op) || op is DclResource || op is DclUnorderedAccessViewTyped
        || op is DclUnorderedAccessViewStructured || op is DclResourceStructured || op is DclIndexRange
        || op is DclUnorderedAccessViewRaw || op is DclResourceRaw || op is DclSampler || op is DclConstantBuffer) {
        assert(kind_words(kind_of(t, op)) =~= rest);
    }
}

proof fn lemma_mask_low(modes: u32, cond: u32)
    by (bit_vector)
    requires
        modes <= 0x7800,
        cond <= 0x4_0000,
    ensures
        modes | cond | 0x78_0000 <= 0xFF_FFFF,
{
}

proof fn lemma_token_joined(t: u32, m: u32, c: u32, l: u32)
    by (bit_vector)
    requires
        m <= 0xFF_FFFF,
        c == 0 || c == 0x8000_0000,
        t & !(0x7F00_07FFu32 | m | c) == 0,
        l == (t >> 24) & 0x7F,
    ensures
        c == 0 ==> (t >> 31) & 1 == 0,
        (t >> 31) & 1 == 0 ==> ((t & 0x7FF) & 0x7FF) | (t & m) | ((l & 0x7F) << 24) == t,
        (t >> 31) & 1 != 0 ==> ((t & 0x7FF) & 0x7FF) | (t & m) | (1u32 << 31) | ((l & 0x7F) << 24) == t,
{
}

/// The words of an instruction are those that it was read from.
#[verifier::rlimit(60)]
#[verifier::spinoff_prover]
proof fn lemma_instruction_back(t: Seq<u32>, op: Opcode)
    requires
        t.len() > 0,
        op == Opcode::of(t[0] & 0x7FF),
        !(op is CustomData),
        instruction_canonical(t),
    ensures
        instruction_words(instruction_of(t, op)) == t,
{
    reveal(instruction_canonical);
    let instr = instruction_of(t, op);
    let rest = t.subrange(1, t.len() as int);
    let chained: u32 = if generic(op) {
        0x8000_0000
    } else {
        0
    };
    let modes: u32 = if op is Sync {
        0x7800
    } else if op is Resinfo {
        0x3800
    } else {
        0x2000
    };
    law_opcode_keeps_value(t[0] & 0x7FF);
    lemma_mask_low(modes, if conditional(op) {
        0x4_0000
    } else {
        0
    });
    assert(data_mask(op) <= 0xFF_FFFF);
    lemma_token_joined(t[0], data_mask(op), chained, t.len() as u32);
    lemma_opdata_back(t, op);
    if generic(op) {
        lemma_operands_back(t, operands_start(t));
        if bit(t[0], 31) {
            lemma_chain_back(instr, t);
            let at = operands_start(t) as int;
            assert(t.subrange(1, at) + t.subrange(at, t.len() as int) =~= rest);
        } else {
            assert(extended_words(instr) =~= Seq::empty());
        }
    } else {
        lemma_body_back(t, op);
        assert(extended_words(instr) =~= Seq::empty());
    }
    assert(extended_words(instr) + kind_words(instr.kind) =~= rest);
    assert(!(instr.kind is CustomData));
    assert(seq![t[0]] + rest =~= t);
}

proof fn lemma_custom_token(t: u32)
    by (bit_vector)
    requires
        t & 0xFFFF_0000 == 0,
    ensures
        ((t & 0x7FF) & 0x7FF) | (((t >> 11) & 0x1F) << 11) == t,
{
}

/// The words of a block of custom data are those that it was read from.
proof fn lemma_custom_back(t: Seq<u32>, op: Opcode)
    requires
        t.len() > 0,
        op == Opcode::of(t[0] & 0x7FF),
        op is CustomData,
        instruction_canonical(t),
    ensures
        instruction_words(instruction_of(t, op)) == t,
{
    reveal(instruction_canonical);
    let subtype = CustomDataType::of((t[0] >> 11) & 0x1F);
    let values = if subtype is ImmediateConstantBuffer {
        rows_of(t)
    } else {
        Seq::empty()
    };
    let from = (2 + 4 * values.len()) as int;
    let rest = words_from(t, from, t.len() as int);
    law_opcode_keeps_value(t[0] & 0x7FF);
    lemma_custom_token(t[0]);
    lemma_rows_laid(values, values.len());
    assert(rest =~= t.subrange(from, t.len() as int));
    let rows = rows_words(values, values.len());
    assert forall|j: int| 0 <= j < rows.len() implies rows[j] == t[2 + j] by {
        let (i, k) = (j / 4, j % 4);
        assert(rows[4 * i + k] == values[i][k]);
    }
    assert(instruction_words(instruction_of(t, op)) =~= t);
}

/// Words that are as long as they say, and say nothing that their instruction does not, are read to an instruction that is
/// written as those words.
pub proof fn law_canonical_instruction_comes_back(t: Seq<u32>)
    requires
        instruction_canonical(t),
    ensures
        instruction_words(instruction_of(t, Opcode::of(t[0] & 0x7FF))) == t,
{
    reveal(instruction_canonical);
    let op = Opcode::of(t[0] & 0x7FF);
    if op is CustomData {
        lemma_custom_back(t, op);
    } else {
        lemma_instruction_back(t, op);
    }
}

/// Instructions stand one behind the other from a place to the end.
pub open spec fn stream_canonical(data: Seq<u8>, offset: nat) -> bool
    decreases data.len() - offset,
{
    offset == data.len() || {
        let n = length_at(data, offset, data.len());
        &&& offset + 4 <= data.len()
        &&& n > 0
        &&& offset + 4 * n <= data.len()
        &&& instruction_canonical(words_at(data, offset, n))
        &&& stream_canonical(data, offset + 4 * n)
    }
}

/// A program's bytes are as long as they say, name a stage that there is, and hold instructions that stand whole.
pub open spec fn program_canonical(data: Seq<u8>) -> bool {
    &&& data.len() >= 8
    &&& le32(data, 4) * 4 == data.len()
    &&& le32(data, 0) & 0xFF00 == 0
    &&& le32(data, 0) >> 16 <= 5
    &&& stream_canonical(data, 8)
}

proof fn lemma_stream_joined(one: InstructionModel, rest: Seq<InstructionModel>, n: nat)
    requires
        n <= rest.len(),
    ensures
        stream_words(seq![one] + rest, n + 1) == instruction_words(one) + stream_words(rest, n),
    decreases n,
{
    let all = seq![one] + rest;
    reveal_with_fuel(stream_words, 2);
    if n == 0 {
        assert(all[0] == one);
        assert(stream_words(all, 1) =~= instruction_words(one) + stream_words(rest, 0));
    } else {
        lemma_stream_joined(one, rest, (n - 1) as nat);
        assert(all[n as int] == rest[n - 1]);
        assert(stream_words(all, n + 1) =~= instruction_words(one) + stream_words(rest, n));
    }
}

proof fn lemma_words_joined(data: Seq<u8>, offset: nat, n: nat, m: nat)
    ensures
        words_at(data, offset, n) + words_at(data, offset + 4 * n, m) == words_at(data, offset, n + m),
{
    assert(words_at(data, offset, n) + words_at(data, offset + 4 * n, m) =~= words_at(data, offset, n + m));
}

/// An instruction that stands whole is the first of those from its place on, and its words are its own.
proof fn lemma_stream_step(data: Seq<u8>, offset: nat, n: nat) -> (one: InstructionModel)
    requires
        n == length_at(data, offset, data.len()),
        offset + 4 <= data.len(),
        n > 0,
        offset + 4 * n <= data.len(),
        instruction_canonical(words_at(data, offset, n)),
    ensures
        stream(data, offset, data.len()).0 == seq![one] + stream(data, offset + 4 * n, data.len()).0,
        instruction_words(one) == words_at(data, offset, n),
{
    let t = words_at(data, offset, n);
    assert(t[0] == le32(data, offset as int));
    assert(offset + n * 4 == offset + 4 * n);
    law_canonical_instruction_comes_back(t);
    instruction_of(t, Opcode::of(t[0] & 0x7FF))
}

/// The words of instructions that stand one behind the other are their own.
#[verifier::rlimit(60)]
#[verifier::spinoff_prover]
proof fn lemma_stream_back(data: Seq<u8>, offset: nat)
    requires
        stream_canonical(data, offset),
        offset <= data.len(),
        data.len() % 4 == 0,
        offset % 4 == 0,
    ensures
        stream_words(stream(data, offset, data.len()).0, stream(data, offset, data.len()).0.len()) == words_at(
            data,
            offset,
            ((data.len() - offset) / 4) as nat,
        ),
    decreases data.len() - offset,
{
    if offset == data.len() {
        let instrs = stream(data, offset, data.len()).0;
        assert(instrs.len() == 0);
        assert(stream_words(instrs, 0) =~= words_at(data, offset, 0));
    } else {
        let n = length_at(data, offset, data.len());
        let m = ((data.len() - (offset + 4 * n)) / 4) as nat;
        let rest = stream(data, offset + 4 * n, data.len()).0;
        assert(instruction_canonical(words_at(data, offset, n)) && stream_canonical(data, offset + 4 * n));
        let one = lemma_stream_step(data, offset, n);
        lemma_stream_back(data, offset + 4 * n);
        lemma_stream_joined(one, rest, rest.len());
        lemma_words_joined(data, offset, n, m);
        assert((seq![one] + rest).len() == rest.len() + 1);
        assert((data.len() - offset) / 4 == n + m);
    }
}

proof fn lemma_byte_parts(a: u8, b: u8, c: u8, d: u8, v: u32)
    by (bit_vector)
    requires
        v == (a as u32) | ((b as u32) << 8) | ((c as u32) << 16) | ((d as u32) << 24),
    ensures
        v == a + 256 * b + 65536 * c + 16777216 * d,
        v % 256 == a,
        (v / 256) % 256 == b,
        (v / 65536) % 256 == c,
        v / 16777216 == d,
{
}

/// The bytes of a word are those that it was read from.
proof fn lemma_word_back(data: Seq<u8>, at: int)
    requires
        0 <= at,
        at + 4 <= data.len(),
    ensures
        bytes32(le32(data, at)) == data.subrange(at, at + 4),
{
    let (a, b, c, d) = (data[at], data[at + 1], data[at + 2], data[at + 3]);
    lemma_byte_parts(a, b, c, d, (a as u32) | ((b as u32) << 8) | ((c as u32) << 16) | ((d as u32) << 24));
    assert(bytes32(le32(data, at)) =~= data.subrange(at, at + 4));
}

/// The bytes of words are those that they were read from.
proof fn lemma_words_back(data: Seq<u8>, words: Seq<u32>, n: nat)
    requires
        n <= words.len(),
        4 * n <= data.len(),
        forall|i: int| 0 <= i < n ==> words[i] == #[trigger] le32(data, 4 * i),
    ensures
        words_bytes(words, n) == data.subrange(0, 4 * n as int),
    decreases n,
{
    if n > 0 {
        let m = (n - 1) as nat;
        lemma_words_back(data, words, m);
        lemma_word_back(data, 4 * m as int);
        assert(words[m as int] == le32(data, 4 * m as int));
    }
    assert(words_bytes(words, n) =~= data.subrange(0, 4 * n as int));
}

proof fn lemma_version_bits(v: u32)
    by (bit_vector)
    requires
        v & 0xFF00 == 0,
    ensures
        (v >> 16) & 0xFFFF == v >> 16,
        ((v >> 16) << 16) | (((v >> 4) & 0xF) << 4) | (v & 0xF) == v,
{
}

/// Bytes that are as long as they say, and say nothing that a program does not, are read to a program that is written as
/// those bytes.
#[verifier::rlimit(60)]
#[verifier::spinoff_prover]
pub proof fn law_canonical_program_comes_back(data: Seq<u8>, fourcc: [u8; 4])
    requires
        program_canonical(data),
    ensures
        program_bytes(program_of(data, fourcc)) == data,
{
    let p = program_of(data, fourcc);
    let v = le32(data, 0);
    let n = (data.len() / 4) as nat;
    let words = program_words(p);
    lemma_version_bits(v);
    lemma_stages_back(v >> 16);
    lemma_stream_back(data, 8);
    assert(words =~= words_at(data, 0, n));
    lemma_words_back(data, words, n);
    assert(data.subrange(0, 4 * n as int) =~= data);
}

} // verus!
