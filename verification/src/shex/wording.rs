//! How what is set on an instruction or an operand shows in a listing.
use crate::shex::fmt::{
    double_bits, double_texts, immediate_text, immediate_texts, index_text, mnemonic_text, operand_text, source_texts,
    uav_flags_text, ImmediateType,
};
use crate::shex::ir::{IndexModel, InstructionModel, OperandModel, RegisterType};
use crate::float::debug64;
use crate::text::{dec, signed};
use vstd::prelude::*;

verus! {

/// An operand that names a register, and so is none of the constants.
pub open spec fn names_register(op: OperandModel) -> bool {
    op.reg_type != RegisterType::Immediate32 && op.reg_type != RegisterType::Immediate64
}

/// A negated operand is the operand with a minus before it, outside the bars of an absolute value, and an absolute one
/// the operand between bars. One that is neither starts with its register.
pub proof fn law_modifiers_stand_round_the_operand(op: OperandModel, width: Option<nat>, kind: ImmediateType)
    requires
        names_register(op),
    ensures
        op.negate ==> operand_text(op, width, kind) == "-"@ + operand_text(
            (OperandModel { negate: false, ..op }),
            width,
            kind,
        ),
        op.abs && !op.negate ==> operand_text(op, width, kind) == "|"@ + operand_text(
            (OperandModel { abs: false, ..op }),
            width,
            kind,
        ) + "|"@,
        !op.abs && !op.negate ==> op.reg_type.prefix_text().is_prefix_of(operand_text(op, width, kind)),
{
    reveal_strlit("");
    let text = operand_text(op, width, kind);
    let positive = operand_text((OperandModel { negate: false, ..op }), width, kind);
    let plain = operand_text((OperandModel { abs: false, ..op }), width, kind);
    if op.negate {
        assert(text =~= "-"@ + positive);
    } else if op.abs {
        assert(text =~= "|"@ + plain + "|"@);
    } else {
        assert(text.take(op.reg_type.prefix_text().len() as int) =~= op.reg_type.prefix_text());
    }
}

/// An index that is found at run time with a number added to it shows what is found first and then the number.
pub proof fn law_added_index_stands_behind(number: u32, sub: OperandModel)
    ensures
        index_text(IndexModel::RelativePlusImm(number, Box::new(sub))) == index_text(IndexModel::Relative(Box::new(sub)))
            + " + "@ + dec(number as nat),
        index_text(IndexModel::Imm32(number)) == dec(number as nat),
        index_text(IndexModel::Imm64(number as u64)) == index_text(IndexModel::Imm32(number)),
{
}

/// An instruction that clamps what it writes says so behind its name, before any offsets. The offsets of one that
/// samples stand last, in the order of the directions, where one of them is not nought.
pub proof fn law_modifiers_stand_behind_the_name(instr: InstructionModel)
    ensures
        instr.saturate && instr.tex_offsets is None ==> mnemonic_text(instr) == mnemonic_text(
            (InstructionModel { saturate: false, ..instr }),
        ) + "_sat"@,
        instr.tex_offsets matches Some(o) ==> {
            let rest = mnemonic_text((InstructionModel { tex_offsets: None, ..instr }));
            if o@[0] == 0 && o@[1] == 0 && o@[2] == 0 {
                mnemonic_text(instr) == rest
            } else {
                mnemonic_text(instr) == rest + "("@ + signed(o@[0] as int) + ", "@ + signed(o@[1] as int) + ", "@
                    + signed(o@[2] as int) + ")"@
            }
        },
        instr.resinfo_return_type is None && !instr.saturate && instr.tex_offsets is None ==> mnemonic_text(instr)
            == instr.opcode.mnemonic(),
{
    reveal_strlit("");
    let unclamped = mnemonic_text((InstructionModel { saturate: false, ..instr }));
    let rest = mnemonic_text((InstructionModel { tex_offsets: None, ..instr }));
    if instr.saturate && instr.tex_offsets is None {
        assert(mnemonic_text(instr) =~= unclamped + "_sat"@);
    }
    if instr.tex_offsets is Some {
        let o = instr.tex_offsets->0;
        if o@[0] == 0 && o@[1] == 0 && o@[2] == 0 {
            assert(mnemonic_text(instr) =~= rest);
        } else {
            assert(mnemonic_text(instr) =~= rest + "("@ + signed(o@[0] as int) + ", "@ + signed(o@[1] as int) + ", "@
                + signed(o@[2] as int) + ")"@);
        }
    }
    if instr.resinfo_return_type is None && !instr.saturate && instr.tex_offsets is None {
        assert(mnemonic_text(instr) =~= instr.opcode.mnemonic());
    }
}

/// The lowest bit of a view's flags says that it is coherent and the next that it is ordered, in this order, and no other
/// bit says anything.
pub proof fn law_view_flags_by_bit(flags: u32)
    ensures
        flags % 4 == 0 ==> uav_flags_text(flags).len() == 0,
        flags % 4 == 1 ==> uav_flags_text(flags) == "_glc"@,
        flags % 4 == 2 ==> uav_flags_text(flags) == "_opc"@,
        flags % 4 == 3 ==> uav_flags_text(flags) == "_glc"@ + "_opc"@,
{
    reveal_strlit("");
    assert(""@ + "_opc"@ =~= "_opc"@);
    assert("_glc"@ + ""@ =~= "_glc"@);
}

/// The operands of an instruction are shown in their order: what it writes in full, and each of its sources cut to the
/// width.
pub proof fn law_operands_are_shown_in_order(
    operands: Seq<OperandModel>,
    width: Option<nat>,
    kind: ImmediateType,
    n: nat,
    i: int,
)
    requires
        0 <= i < n <= operands.len(),
    ensures
        source_texts(operands, width, kind, n).len() == n,
        i == 0 ==> source_texts(operands, width, kind, n)[i] == operand_text(operands[i], None, kind),
        i > 0 ==> source_texts(operands, width, kind, n)[i] == operand_text(operands[i], width, kind),
    decreases n,
{
    if n > 1 {
        law_operands_are_shown_in_order(
            operands,
            width,
            kind,
            (n - 1) as nat,
            if i < n - 1 {
                i
            } else {
                0
            },
        );
    } else {
        assert(source_texts(operands, width, kind, 0).len() == 0);
    }
}

/// The words of a constant are shown in their order, each on its own, and those of a constant of doubles by two, the low
/// word first.
pub proof fn law_constants_are_shown_in_order(values: Seq<u32>, kind: ImmediateType, n: nat, i: int)
    requires
        0 <= i < n,
    ensures
        n <= values.len() ==> {
            &&& immediate_texts(values, kind, n).len() == n
            &&& immediate_texts(values, kind, n)[i] == immediate_text(values[i], kind)
        },
        2 * n <= values.len() ==> {
            &&& double_texts(values, n).len() == n
            &&& double_texts(values, n)[i] == debug64(double_bits(values[2 * i], values[2 * i + 1]))
        },
    decreases n,
{
    if n > 1 {
        law_constants_are_shown_in_order(
            values,
            kind,
            (n - 1) as nat,
            if i < n - 1 {
                i
            } else {
                0
            },
        );
    } else {
        assert(immediate_texts(values, kind, 0).len() == 0);
        assert(double_texts(values, 0).len() == 0);
    }
}

/// A constant that is shown with a sign is negative from half of the words on: it then shows how far it is from the
/// number behind the last word.
pub proof fn law_signed_constants_wrap(value: u32)
    ensures
        value < 0x8000_0000 ==> immediate_text(value, ImmediateType::Int) == dec(value as nat),
        value >= 0x8000_0000 ==> immediate_text(value, ImmediateType::Int) == "-"@ + dec((0x1_0000_0000 - value) as nat),
{
    assert(value < 0x8000_0000u32 ==> (value as i32) == value) by (bit_vector);
    assert(value >= 0x8000_0000u32 ==> (value as i32) == value - 0x1_0000_0000) by (bit_vector);
}

} // verus!
