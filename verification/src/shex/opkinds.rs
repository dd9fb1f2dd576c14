//! How the operands of an instruction are listed, by the instruction's number.
use crate::shex::fmt::{immediate_type, reads_whole, source_width};
use crate::shex::ir::ComponentSelect;
use crate::shex::opcodes::Opcode;
use crate::shex::opnumbers::{
    law_opcode_numbers_from_0, law_opcode_numbers_from_43, law_opcode_numbers_from_86,
    law_opcode_numbers_from_132, law_opcode_numbers_from_175,
};
use vstd::prelude::*;

verus! {

/// The instructions whose constants are shown as numbers with a sign, those whose constants are shown by their bits, and
/// all others, whose constants are shown as floats.
#[verifier::spinoff_prover]
#[verifier::rlimit(60)]
pub proof fn law_constants_are_shown_by_instruction(v: u32)
    ensures
        immediate_type(Opcode::of(v)) is Int <==> v == 30 || 32 <= v <= 43 || v == 137 || v == 139 || 173 <= v <= 175 || v == 180
            || v == 186 || v == 187 || v == 216,
        immediate_type(Opcode::of(v)) is Uint <==> v == 1 || v == 59 || v == 60 || 78 <= v <= 87 || 131 <= v <= 136 || v == 138
            || v == 140 || v == 141 || 169 <= v <= 172 || v == 176 || v == 177 || 181 <= v <= 185
            || v == 188 || v == 189 || v == 213 || v == 217,
        immediate_type(Opcode::of(v)) is Float <==> !(immediate_type(Opcode::of(v)) is Int || immediate_type(
            Opcode::of(v),
        ) is Uint),
{
    law_opcode_numbers_from_0(v);
    law_opcode_numbers_from_43(v);
    law_opcode_numbers_from_86(v);
    law_opcode_numbers_from_132(v);
    law_opcode_numbers_from_175(v);
}

/// The instructions that read all components of their sources whatever they write: those that sample, load, ask about a
/// resource or store, and those that work on memory.
#[verifier::spinoff_prover]
#[verifier::rlimit(60)]
pub proof fn law_whole_sources_by_instruction(v: u32)
    ensures
        reads_whole(Opcode::of(v)) <==> v == 45 || v == 46 || v == 61 || 69 <= v <= 74 || 108 <= v <= 111 || v == 121
            || 126 <= v <= 128 || 163 <= v <= 189,
{
    law_opcode_numbers_from_0(v);
    law_opcode_numbers_from_43(v);
    law_opcode_numbers_from_86(v);
    law_opcode_numbers_from_132(v);
    law_opcode_numbers_from_175(v);
}

/// A dot product reads as many components as its name says, one that reads whole sources has no width, and every other
/// instruction reads up to the highest component that it writes.
#[verifier::spinoff_prover]
#[verifier::rlimit(60)]
pub proof fn law_source_widths_by_instruction(v: u32, mask: u8)
    requires
        0 < mask < 16,
    ensures
        v == 15 ==> source_width(Opcode::of(v), ComponentSelect::Mask(mask)) == Some(2nat),
        v == 16 ==> source_width(Opcode::of(v), ComponentSelect::Mask(mask)) == Some(3nat),
        v == 17 ==> source_width(Opcode::of(v), ComponentSelect::Mask(mask)) == Some(4nat),
        reads_whole(Opcode::of(v)) ==> source_width(Opcode::of(v), ComponentSelect::Mask(mask)) is None,
        !(15 <= v <= 17) && !reads_whole(Opcode::of(v)) ==> {
            let width = source_width(Opcode::of(v), ComponentSelect::Mask(mask));
            &&& width is Some
            &&& mask >= 8 ==> width->0 == 4
            &&& 4 <= mask < 8 ==> width->0 == 3
            &&& 2 <= mask < 4 ==> width->0 == 2
            &&& mask == 1 ==> width->0 == 1
        },
{
    law_opcode_numbers_from_0(v);
    law_opcode_numbers_from_43(v);
    law_opcode_numbers_from_86(v);
    law_opcode_numbers_from_132(v);
    law_opcode_numbers_from_175(v);
}

} // verus!
