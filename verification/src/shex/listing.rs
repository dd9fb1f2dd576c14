//! What a listing shows of an operand can be read back from it.
use crate::hlsl::expr::{lane_letter, lane_letters};
use crate::hlsl::machine::mask_lanes;
use crate::shex::fmt::{
    component_letter, components_text, depth_after, double_bits, highest_bit, indentation, mask_text, own_depth, trimmed,
};
use crate::shex::ir::{ComponentSelect, InstructionModel};
use vstd::prelude::*;

verus! {

/// Cutting the repeats off a swizzle leaves it readable: a component that is not shown is the last that is.
pub proof fn law_trimmed_swizzle_reads_back(letters: Seq<char>, i: int)
    requires
        0 <= i < letters.len(),
    ensures
        1 <= trimmed(letters).len() <= letters.len(),
        letters[i] == (if i < trimmed(letters).len() { trimmed(letters)[i] } else { trimmed(letters)[trimmed(letters).len()
            - 1] }),
        trimmed(letters).len() > 1 ==> trimmed(letters)[trimmed(letters).len() - 1] != trimmed(letters)[trimmed(letters).len()
            - 2],
    decreases letters.len(),
{
    if letters.len() > 1 && letters[letters.len() - 1] == letters[letters.len() - 2] {
        let fewer = letters.drop_last();
        if i < fewer.len() {
            law_trimmed_swizzle_reads_back(fewer, i);
        } else {
            law_trimmed_swizzle_reads_back(fewer, i - 1);
        }
    }
}

/// A mask is shown by the letters of its components, upwards, in a listing and in the text of a reading alike.
pub proof fn law_mask_is_shown_by_its_letters(mask: u8)
    ensures
        mask_text(mask) =~= lane_letters(mask_lanes(mask)),
{
    reveal_strlit("x");
    reveal_strlit("y");
    reveal_strlit("z");
    reveal_strlit("w");
    reveal_strlit("");
}

/// The components have the same letters in both.
pub proof fn law_letters_agree(at: u8)
    requires
        at < 4,
    ensures
        component_letter(at) == lane_letter(at),
{
}

/// One component is shown as that one letter.
pub proof fn law_scalar_is_shown_by_its_letter(at: u8)
    requires
        at < 4,
    ensures
        components_text(ComponentSelect::Scalar(at), None).len() == 2,
        components_text(ComponentSelect::Scalar(at), None)[0] == '.',
        components_text(ComponentSelect::Scalar(at), None)[1] == lane_letter(at),
{
    reveal_strlit(".");
}

/// The highest bit of a mask, counted from one: the mask reaches it and goes no further.
pub proof fn law_highest_bit_is_highest(mask: u8)
    requires
        mask > 0,
    ensures
        mask < 2 * vstd::arithmetic::power2::pow2((highest_bit(mask) - 1) as nat),
        vstd::arithmetic::power2::pow2((highest_bit(mask) - 1) as nat) <= mask,
{
    vstd::arithmetic::power2::lemma2_to64();
}

/// A double is its low word and, above it, its high word.
pub proof fn law_double_is_two_words(low: u32, high: u32)
    ensures
        double_bits(low, high) % 0x1_0000_0000 == low,
        double_bits(low, high) / 0x1_0000_0000 == high,
{
}

/// What opens a block stands where it stood and sets what follows further in; what closes one stands as far out as what
/// opened it, and so does what parts one.
pub proof fn law_blocks_are_set_in(instructions: Seq<InstructionModel>, n: nat)
    requires
        n < instructions.len(),
    ensures
        ({
            let op = instructions[n as int].opcode;
            let before = depth_after(instructions, n);
            let after = depth_after(instructions, n + 1);
            &&& op is If || op is Loop || op is Switch ==> own_depth(op, before) == before && after == before + 1
            &&& (op is EndIf || op is EndLoop || op is EndSwitch) && before > 0 ==> own_depth(op, before) == before - 1
                && after == before - 1
            &&& op is Else && before > 0 ==> own_depth(op, before) == before - 1 && after == before
            &&& !(op is If || op is Loop || op is Switch || op is Else || op is EndIf || op is EndLoop || op is EndSwitch)
                ==> own_depth(op, before) == before && after == before
        }),
        indentation(n).len() == 2 * n,
{
    lemma_indented(n);
}

proof fn lemma_indented(n: nat)
    ensures
        indentation(n).len() == 2 * n,
    decreases n,
{
    reveal_strlit("  ");
    if n > 0 {
        lemma_indented((n - 1) as nat);
    }
}

} // verus!
