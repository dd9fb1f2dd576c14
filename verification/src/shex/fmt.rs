//! Formatter: instructions as human-readable disassembly text.
use super::decode::decode;
use super::ir::{
    operand_models, ComponentSelect, CustomDataType, GsPrimitive, IndexModel, Instruction, InstructionKind,
    InstructionModel, KindModel, Operand, OperandIndex, OperandModel, Program, ProgramModel, RegisterType, ReturnType,
    Words,
};
use super::opcodes::Opcode;
use crate::float::{debug64, debug_double, field32, fixed32, fixed_single, fraction32};
use crate::text::{
    cat2, cat3, cat4, cat5, cat6, cat7, dec, decimal, decimal_signed, hex_fixed_upper, hexadecimal_fixed_upper,
    join, joined, same, signed, views,
};
use vstd::prelude::*;

verus! {

/// Operand value type, used to select the correct immediate formatting.
#[derive(Debug, Clone, Copy, PartialEq, Eq, Structural)]
pub enum ImmediateType {
    /// Immediates as floating-point (`1.000000`).
    Float,
    /// Immediates as signed decimal integers (`-3`).
    Int,
    /// Immediates as unsigned hex integers (`0x000000FF`).
    Uint,
}

/// How an opcode reads its immediate operands. Moves, loads and flow control are read as floats.
pub open spec fn immediate_type(op: Opcode) -> ImmediateType {
    match op {
        Opcode::Iadd | Opcode::IEq | Opcode::IGe | Opcode::ILt | Opcode::IMad | Opcode::IMax | Opcode::IMin
        | Opcode::IMul | Opcode::INe | Opcode::INeg | Opcode::Ishl | Opcode::Ishr | Opcode::Ibfe
        | Opcode::FirstbitShi | Opcode::Itof | Opcode::Itod | Opcode::AtomicIAdd | Opcode::AtomicIMax
        | Opcode::AtomicIMin | Opcode::ImmAtomicIAdd | Opcode::ImmAtomicIMax | Opcode::ImmAtomicIMin => ImmediateType::Int,
        Opcode::And | Opcode::Or | Opcode::Xor | Opcode::Not | Opcode::UDiv | Opcode::ULt | Opcode::UGe
        | Opcode::UMul | Opcode::UMad | Opcode::UMax | Opcode::UMin | Opcode::Ushr | Opcode::Ubfe | Opcode::Bfi
        | Opcode::Bfrev | Opcode::Countbits | Opcode::FirstbitHi | Opcode::FirstbitLo | Opcode::Uaddc
        | Opcode::Usubb | Opcode::Utof | Opcode::Utod | Opcode::F16tof32 | Opcode::AtomicAnd | Opcode::AtomicOr
        | Opcode::AtomicXor | Opcode::AtomicCmpStore | Opcode::AtomicUMax | Opcode::AtomicUMin
        | Opcode::ImmAtomicAnd | Opcode::ImmAtomicOr | Opcode::ImmAtomicXor | Opcode::ImmAtomicExch
        | Opcode::ImmAtomicCmpExch | Opcode::ImmAtomicUMax | Opcode::ImmAtomicUMin | Opcode::Msad => ImmediateType::Uint,
        _ => ImmediateType::Float,
    }
}

fn opcode_imm_type(op: Opcode) -> (r: ImmediateType)
    ensures
        r == immediate_type(op),
{
    match op {
        Opcode::Iadd | Opcode::IEq | Opcode::IGe | Opcode::ILt | Opcode::IMad | Opcode::IMax | Opcode::IMin
        | Opcode::IMul | Opcode::INe | Opcode::INeg | Opcode::Ishl | Opcode::Ishr | Opcode::Ibfe
        | Opcode::FirstbitShi | Opcode::Itof | Opcode::Itod | Opcode::AtomicIAdd | Opcode::AtomicIMax
        | Opcode::AtomicIMin | Opcode::ImmAtomicIAdd | Opcode::ImmAtomicIMax | Opcode::ImmAtomicIMin => ImmediateType::Int,
        Opcode::And | Opcode::Or | Opcode::Xor | Opcode::Not | Opcode::UDiv | Opcode::ULt | Opcode::UGe
        | Opcode::UMul | Opcode::UMad | Opcode::UMax | Opcode::UMin | Opcode::Ushr | Opcode::Ubfe | Opcode::Bfi
        | Opcode::Bfrev | Opcode::Countbits | Opcode::FirstbitHi | Opcode::FirstbitLo | Opcode::Uaddc
        | Opcode::Usubb | Opcode::Utof | Opcode::Utod | Opcode::F16tof32 | Opcode::AtomicAnd | Opcode::AtomicOr
        | Opcode::AtomicXor | Opcode::AtomicCmpStore | Opcode::AtomicUMax | Opcode::AtomicUMin
        | Opcode::ImmAtomicAnd | Opcode::ImmAtomicOr | Opcode::ImmAtomicXor | Opcode::ImmAtomicExch
        | Opcode::ImmAtomicCmpExch | Opcode::ImmAtomicUMax | Opcode::ImmAtomicUMin | Opcode::Msad => ImmediateType::Uint,
        _ => ImmediateType::Float,
    }
}

/// An opcode whose source swizzles are independent of the destination mask: texture and resource reads,
/// stores and atomics.
pub open spec fn reads_whole(op: Opcode) -> bool {
    match op {
        Opcode::Sample | Opcode::SampleB | Opcode::SampleC | Opcode::SampleCLz | Opcode::SampleD
        | Opcode::SampleL | Opcode::Ld | Opcode::LdMs | Opcode::LdUavTyped | Opcode::Gather4 | Opcode::Gather4C
        | Opcode::Gather4Po | Opcode::Gather4PoC | Opcode::Resinfo | Opcode::Lod | Opcode::SamplePos
        | Opcode::SampleInfo | Opcode::BufInfo | Opcode::StoreUavTyped | Opcode::StoreRaw
        | Opcode::StoreStructured | Opcode::AtomicAnd | Opcode::AtomicOr | Opcode::AtomicXor
        | Opcode::AtomicCmpStore | Opcode::AtomicIAdd | Opcode::AtomicIMax | Opcode::AtomicIMin
        | Opcode::AtomicUMax | Opcode::AtomicUMin | Opcode::ImmAtomicAlloc | Opcode::ImmAtomicConsume
        | Opcode::ImmAtomicIAdd | Opcode::ImmAtomicAnd | Opcode::ImmAtomicOr | Opcode::ImmAtomicXor
        | Opcode::ImmAtomicExch | Opcode::ImmAtomicCmpExch | Opcode::ImmAtomicIMax | Opcode::ImmAtomicIMin
        | Opcode::ImmAtomicUMax | Opcode::ImmAtomicUMin | Opcode::LdRaw | Opcode::LdStructured => true,
        _ => false,
    }
}

fn opcode_reads_whole(op: Opcode) -> (r: bool)
    ensures
        r == reads_whole(op),
{
    match op {
        Opcode::Sample | Opcode::SampleB | Opcode::SampleC | Opcode::SampleCLz | Opcode::SampleD
        | Opcode::SampleL | Opcode::Ld | Opcode::LdMs | Opcode::LdUavTyped | Opcode::Gather4 | Opcode::Gather4C
        | Opcode::Gather4Po | Opcode::Gather4PoC | Opcode::Resinfo | Opcode::Lod | Opcode::SamplePos
        | Opcode::SampleInfo | Opcode::BufInfo | Opcode::StoreUavTyped | Opcode::StoreRaw
        | Opcode::StoreStructured | Opcode::AtomicAnd | Opcode::AtomicOr | Opcode::AtomicXor
        | Opcode::AtomicCmpStore | Opcode::AtomicIAdd | Opcode::AtomicIMax | Opcode::AtomicIMin
        | Opcode::AtomicUMax | Opcode::AtomicUMin | Opcode::ImmAtomicAlloc | Opcode::ImmAtomicConsume
        | Opcode::ImmAtomicIAdd | Opcode::ImmAtomicAnd | Opcode::ImmAtomicOr | Opcode::ImmAtomicXor
        | Opcode::ImmAtomicExch | Opcode::ImmAtomicCmpExch | Opcode::ImmAtomicIMax | Opcode::ImmAtomicIMin
        | Opcode::ImmAtomicUMax | Opcode::ImmAtomicUMin | Opcode::LdRaw | Opcode::LdStructured => true,
        _ => false,
    }
}

/// The position of the highest set bit, counted from one.
pub open spec fn highest_bit(mask: u8) -> nat {
    if mask >= 128 { 8 }
    else if mask >= 64 { 7 }
    else if mask >= 32 { 6 }
    else if mask >= 16 { 5 }
    else if mask >= 8 { 4 }
    else if mask >= 4 { 3 }
    else if mask >= 2 { 2 }
    else { 1 }
}

/// How many source components a destination operand leaves to be read: up to the highest component that
/// its mask names, where it has a mask.
pub open spec fn mask_width(components: ComponentSelect) -> Option<nat> {
    match components {
        ComponentSelect::Mask(mask) => if mask == 0 {
            None
        } else {
            Some(highest_bit(mask))
        },
        _ => None,
    }
}

/// How many components of its sources an instruction reads, where that is less than all it names.
pub open spec fn source_width(op: Opcode, dest: ComponentSelect) -> Option<nat> {
    if op == Opcode::Dp2 {
        Some(2)
    } else if op == Opcode::Dp3 {
        Some(3)
    } else if op == Opcode::Dp4 {
        Some(4)
    } else if reads_whole(op) {
        None
    } else {
        mask_width(dest)
    }
}

fn dest_component_count(components: &ComponentSelect) -> (r: Option<u8>)
    ensures
        match r {
            Some(n) => mask_width(*components) == Some(n as nat),
            None => mask_width(*components) is None,
        },
{
    match components {
        ComponentSelect::Mask(mask) => {
            let m: u8 = *mask;
            if m == 0 { None }
            else if m >= 128 { Some(8) }
            else if m >= 64 { Some(7) }
            else if m >= 32 { Some(6) }
            else if m >= 16 { Some(5) }
            else if m >= 8 { Some(4) }
            else if m >= 4 { Some(3) }
            else if m >= 2 { Some(2) }
            else { Some(1) }
        },
        _ => None,
    }
}

fn source_width_override(opcode: Opcode, dest: &ComponentSelect) -> (r: Option<u8>)
    ensures
        match r {
            Some(n) => source_width(opcode, *dest) == Some(n as nat),
            None => source_width(opcode, *dest) is None,
        },
{
    if opcode == Opcode::Dp2 {
        Some(2)
    } else if opcode == Opcode::Dp3 {
        Some(3)
    } else if opcode == Opcode::Dp4 {
        Some(4)
    } else if opcode_reads_whole(opcode) {
        None
    } else {
        dest_component_count(dest)
    }
}

/// An immediate value as its type reads it.
pub open spec fn immediate_text(value: u32, kind: ImmediateType) -> Seq<char> {
    match kind {
        ImmediateType::Float => if field32(value) == 255 && fraction32(value) != 0 {
            "0x"@ + hex_fixed_upper(value as nat, 8)
        } else {
            fixed32(value)
        },
        ImmediateType::Int => signed((value as i32) as int),
        ImmediateType::Uint => if value == 0 {
            "0"@
        } else {
            "0x"@ + hex_fixed_upper(value as nat, 8)
        },
    }
}

fn format_immediate(value: u32, kind: ImmediateType) -> (r: String)
    ensures
        r@ == immediate_text(value, kind),
{
    match kind {
        ImmediateType::Float => {
            let field: u32 = (value / 0x80_0000) % 256;
            let part: u32 = value % 0x80_0000;
            if field == 255 && part != 0 {
                let h = hexadecimal_fixed_upper(value as u64, 8);
                cat2("0x", h.as_str())
            } else {
                fixed_single(value)
            }
        },
        ImmediateType::Int => decimal_signed((value as i32) as i64),
        ImmediateType::Uint => {
            if value == 0 {
                "0".to_owned()
            } else {
                let h = hexadecimal_fixed_upper(value as u64, 8);
                cat2("0x", h.as_str())
            }
        },
    }
}

/// The first `n` immediate values.
pub open spec fn immediate_texts(values: Seq<u32>, kind: ImmediateType, n: nat) -> Seq<Seq<char>>
    decreases n,
{
    if n == 0 {
        Seq::empty()
    } else {
        immediate_texts(values, kind, (n - 1) as nat).push(immediate_text(values[n - 1], kind))
    }
}

fn format_immediates(values: &[u32], kind: ImmediateType) -> (r: Vec<String>)
    ensures
        views(r@) == immediate_texts(values@, kind, values@.len()),
{
    let mut out: Vec<String> = Vec::new();
    let mut i: usize = 0;
    proof {
        assert(views(out@) =~= Seq::empty());
    }
    while i < values.len()
        invariant
            i <= values@.len(),
            views(out@) == immediate_texts(values@, kind, i as nat),
        decreases values@.len() - i,
    {
        let ghost before = views(out@);
        let text = format_immediate(values[i], kind);
        out.push(text);
        i = i + 1;
        proof {
            assert(views(out@) =~= before.push(immediate_text(values@[i - 1], kind)));
        }
    }
    out
}

/// A 64-bit float out of its low and its high word.
pub open spec fn double_bits(low: u32, high: u32) -> u64 {
    (high * 0x1_0000_0000 + low) as u64
}

/// The first `n` 64-bit values: each takes two words, and a word left over is left out.
pub open spec fn double_texts(values: Seq<u32>, n: nat) -> Seq<Seq<char>>
    decreases n,
{
    if n == 0 {
        Seq::empty()
    } else {
        double_texts(values, (n - 1) as nat).push(debug64(double_bits(values[2 * n - 2], values[2 * n - 1])))
    }
}

fn format_doubles(values: &[u32]) -> (r: Vec<String>)
    ensures
        views(r@) == double_texts(values@, values@.len() / 2),
{
    let mut out: Vec<String> = Vec::new();
    let count: usize = values.len() / 2;
    let mut i: usize = 0;
    proof {
        assert(views(out@) =~= Seq::empty());
    }
    while i < count
        invariant
            i <= count,
            count == values@.len() / 2,
            values@.len() <= usize::MAX,
            views(out@) == double_texts(values@, i as nat),
        decreases count - i,
    {
        let ghost before = views(out@);
        let low: u64 = values[2 * i] as u64;
        let high: u64 = values[2 * i + 1] as u64;
        let text = debug_double(high * 0x1_0000_0000 + low);
        out.push(text);
        i = i + 1;
        proof {
            assert(views(out@) =~= before.push(debug64(double_bits(values@[2 * i - 2], values@[2 * i - 1]))));
        }
    }
    out
}

/// The letter of a component.
pub open spec fn component_letter(at: u8) -> char {
    if at == 0 { 'x' }
    else if at == 1 { 'y' }
    else if at == 2 { 'z' }
    else { 'w' }
}

/// A swizzle without the repeats of its last component.
pub open spec fn trimmed(letters: Seq<char>) -> Seq<char>
    decreases letters.len(),
{
    if letters.len() > 1 && letters[letters.len() - 1] == letters[letters.len() - 2] {
        trimmed(letters.drop_last())
    } else {
        letters
    }
}

/// The letters of a mask.
pub open spec fn mask_text(mask: u8) -> Seq<char> {
    (if mask % 2 == 1 { "x"@ } else { ""@ }) + (if (mask / 2) % 2 == 1 { "y"@ } else { ""@ }) + (if (mask / 4) % 2 == 1 {
        "z"@
    } else {
        ""@
    }) + (if (mask / 8) % 2 == 1 { "w"@ } else { ""@ })
}

/// How many components are left of a swizzle that is cut to a width.
pub open spec fn kept_count(width: Option<nat>) -> nat {
    match width {
        Some(n) => if n < 4 {
            n
        } else {
            4
        },
        None => 4,
    }
}

/// The components behind an operand's register.
pub open spec fn components_text(components: ComponentSelect, width: Option<nat>) -> Seq<char> {
    match components {
        ComponentSelect::ZeroComponent => ""@,
        ComponentSelect::OneComponent => ""@,
        ComponentSelect::Mask(mask) => if mask == 0 {
            ""@
        } else {
            "."@ + mask_text(mask)
        },
        ComponentSelect::Swizzle(s) => {
            let letters = trimmed(Seq::new(kept_count(width), |i: int| component_letter(s@[i])));
            if letters.len() == 0 {
                ""@
            } else {
                "."@ + letters
            }
        },
        ComponentSelect::Scalar(c) => "."@.push(component_letter(c)),
    }
}

fn letter(at: u8) -> (r: char)
    ensures
        r == component_letter(at),
{
    match at {
        0 => 'x',
        1 => 'y',
        2 => 'z',
        _ => 'w',
    }
}

fn trim(letters: Vec<char>) -> (r: Vec<char>)
    ensures
        r@ == trimmed(letters@),
{
    let mut held = letters;
    while held.len() > 1 && held[held.len() - 1] == held[held.len() - 2]
        invariant
            trimmed(held@) == trimmed(letters@),
        decreases held@.len(),
    {
        let ghost before = held@;
        let dropped = held.pop();
        proof {
            assert(held@ =~= before.drop_last());
        }
    }
    held
}

fn format_components(components: &ComponentSelect, width: Option<u8>) -> (r: String)
    ensures
        r@ == components_text(*components, (match width {
            Some(n) => Some(n as nat),
            None => None,
        })),
{
    match components {
        ComponentSelect::ZeroComponent => "".to_owned(),
        ComponentSelect::OneComponent => "".to_owned(),
        ComponentSelect::Mask(mask) => {
            if *mask == 0 {
                return "".to_owned();
            }
            let x = if *mask % 2 == 1 { "x" } else { "" };
            let y = if (*mask / 2) % 2 == 1 { "y" } else { "" };
            let z = if (*mask / 4) % 2 == 1 { "z" } else { "" };
            let w = if (*mask / 8) % 2 == 1 { "w" } else { "" };
            let letters = cat4(x, y, z, w);
            cat2(".", letters.as_str())
        },
        ComponentSelect::Swizzle(s) => {
            let count: usize = match width {
                Some(n) => if n < 4 {
                    n as usize
                } else {
                    4
                },
                None => 4,
            };
            let ghost all = Seq::new(count as nat, |i: int| component_letter(s@[i]));
            let mut letters: Vec<char> = Vec::new();
            let mut i: usize = 0;
            while i < count
                invariant
                    i <= count <= 4,
                    all == Seq::new(count as nat, |i: int| component_letter(s@[i])),
                    letters@ == all.take(i as int),
                decreases count - i,
            {
                letters.push(letter(s[i]));
                i = i + 1;
                proof {
                    assert(letters@ =~= all.take(i as int));
                }
            }
            proof {
                assert(all.take(i as int) =~= all);
                let want = Seq::new(
                    kept_count(
                        match width {
                            Some(n) => Some(n as nat),
                            None => None,
                        },
                    ),
                    |i: int| component_letter(s@[i]),
                );
                assert(all =~= want);
            }
            let kept = trim(letters);
            if kept.len() == 0 {
                "".to_owned()
            } else {
                let text = crate::text::from_chars(kept.as_slice());
                cat2(".", text.as_str())
            }
        },
        ComponentSelect::Scalar(c) => {
            let mut out = ".".to_owned();
            out.push(letter(*c));
            out
        },
    }
}

/// An index of an operand.
pub open spec fn index_text(index: IndexModel) -> Seq<char>
    decreases index, 0nat,
{
    match index {
        IndexModel::Imm32(v) => dec(v as nat),
        IndexModel::Imm64(v) => dec(v as nat),
        IndexModel::Relative(sub) => operand_text(*sub, None, ImmediateType::Float),
        IndexModel::RelativePlusImm(imm, sub) => operand_text(*sub, None, ImmediateType::Float) + " + "@ + dec(
            imm as nat,
        ),
    }
}

/// The indices from the second to the `n`th, each in brackets.
pub open spec fn further_indices(indices: Seq<IndexModel>, n: nat) -> Seq<char>
    decreases indices, n,
{
    if n <= 1 || n > indices.len() {
        Seq::empty()
    } else {
        further_indices(indices, (n - 1) as nat) + "["@ + index_text(indices[n - 1]) + "]"@
    }
}

/// The indices behind an operand's register. One that is found at run time stands in brackets.
pub open spec fn indices_text(indices: Seq<IndexModel>) -> Seq<char>
    decreases indices, indices.len() + 1,
{
    if indices.len() == 0 {
        Seq::empty()
    } else if indices.len() == 1 {
        if indices[0] is Relative || indices[0] is RelativePlusImm {
            "["@ + index_text(indices[0]) + "]"@
        } else {
            index_text(indices[0])
        }
    } else {
        index_text(indices[0]) + further_indices(indices, indices.len())
    }
}

/// An operand: an immediate, or a register with its indices, its components cut to a width and its
/// modifiers around it.
pub open spec fn operand_text(op: OperandModel, width: Option<nat>, kind: ImmediateType) -> Seq<char>
    decreases op, 0nat,
{
    if op.reg_type == RegisterType::Immediate32 {
        "l("@ + joined(immediate_texts(op.immediate_values, kind, op.immediate_values.len()), ", "@) + ")"@
    } else if op.reg_type == RegisterType::Immediate64 {
        "d("@ + joined(double_texts(op.immediate_values, op.immediate_values.len() / 2), ", "@) + ")"@
    } else {
        (if op.negate { "-"@ } else { ""@ }) + (if op.abs { "|"@ } else { ""@ }) + op.reg_type.prefix_text()
            + indices_text(op.indices) + components_text(op.components, width) + (if op.abs { "|"@ } else { ""@ })
    }
}

fn format_index(index: &OperandIndex) -> (r: String)
    ensures
        r@ == index_text(index@),
    decreases index, 0nat,
{
    match index {
        OperandIndex::Imm32(v) => decimal(*v as u64),
        OperandIndex::Imm64(v) => decimal(*v),
        OperandIndex::Relative(sub) => format_operand_core(sub, None, ImmediateType::Float),
        OperandIndex::RelativePlusImm(imm, sub) => {
            let inner = format_operand_core(sub, None, ImmediateType::Float);
            let plus = decimal(*imm as u64);
            cat3(inner.as_str(), " + ", plus.as_str())
        },
    }
}

fn format_indices(op: &Operand) -> (r: String)
    ensures
        r@ == indices_text(op@.indices),
    decreases op, 0nat,
{
    let ghost all = op@.indices;
    if op.indices.len() == 0 {
        let r = String::new();
        proof {
            assert(r@ =~= indices_text(all));
        }
        return r;
    }
    assert(all[0] == op.indices@[0]@);
    let first = format_index(&op.indices[0]);
    if op.indices.len() == 1 {
        return match &op.indices[0] {
            OperandIndex::Imm32(_) => first,
            OperandIndex::Imm64(_) => first,
            _ => cat3("[", first.as_str(), "]"),
        };
    }
    let mut out = String::new();
    let mut i: usize = 1;
    proof {
        assert(out@ =~= further_indices(all, 1));
    }
    while i < op.indices.len()
        invariant
            1 <= i <= op.indices@.len(),
            all == op@.indices,
            all.len() == op.indices@.len(),
            out@ == further_indices(all, i as nat),
        decreases op.indices@.len() - i,
    {
        assert(all[i as int] == op.indices@[i as int]@);
        let text = format_index(&op.indices[i]);
        out.push_str("[");
        out.push_str(text.as_str());
        out.push_str("]");
        i = i + 1;
    }
    cat2(first.as_str(), out.as_str())
}

fn format_operand_core(op: &Operand, width: Option<u8>, kind: ImmediateType) -> (r: String)
    ensures
        r@ == operand_text(op@, (match width {
            Some(n) => Some(n as nat),
            None => None,
        }), kind),
    decreases op, 1nat,
{
    if op.reg_type == RegisterType::Immediate32 {
        let texts = format_immediates(op.immediate_values.as_slice(), kind);
        let list = join(texts.as_slice(), ", ");
        return cat3("l(", list.as_str(), ")");
    }
    if op.reg_type == RegisterType::Immediate64 {
        let texts = format_doubles(op.immediate_values.as_slice());
        let list = join(texts.as_slice(), ", ");
        return cat3("d(", list.as_str(), ")");
    }
    let sign = if op.negate { "-" } else { "" };
    let bar = if op.abs { "|" } else { "" };
    let indices = format_indices(op);
    let components = format_components(&op.components, width);
    cat6(sign, bar, op.reg_type.prefix(), indices.as_str(), components.as_str(), bar)
}

/// The first `n` operands, each as it stands alone.
pub open spec fn operand_texts(operands: Seq<OperandModel>, n: nat) -> Seq<Seq<char>>
    decreases n,
{
    if n == 0 {
        Seq::empty()
    } else {
        operand_texts(operands, (n - 1) as nat).push(operand_text(operands[n - 1], None, ImmediateType::Float))
    }
}

/// A comma-separated list of operands.
pub open spec fn operand_list_text(operands: Seq<OperandModel>) -> Seq<char> {
    joined(operand_texts(operands, operands.len()), ", "@)
}

fn format_operand_list(operands: &Vec<Operand>) -> (r: String)
    ensures
        r@ == operand_list_text(operand_models(operands@)),
{
    let ghost all = operand_models(operands@);
    let mut out: Vec<String> = Vec::new();
    let mut i: usize = 0;
    proof {
        assert(views(out@) =~= Seq::empty());
    }
    while i < operands.len()
        invariant
            i <= operands@.len(),
            all == operand_models(operands@),
            views(out@) == operand_texts(all, i as nat),
        decreases operands@.len() - i,
    {
        let ghost before = views(out@);
        let text = format_operand_core(&operands[i], None, ImmediateType::Float);
        out.push(text);
        i = i + 1;
        proof {
            assert(views(out@) =~= before.push(operand_text(all[i - 1], None, ImmediateType::Float)));
        }
    }
    join(out.as_slice(), ", ")
}

/// The first `n` operands of an instruction: the first in full, the sources cut to a width.
pub open spec fn source_texts(
    operands: Seq<OperandModel>,
    width: Option<nat>,
    kind: ImmediateType,
    n: nat,
) -> Seq<Seq<char>>
    decreases n,
{
    if n == 0 {
        Seq::empty()
    } else {
        source_texts(operands, width, kind, (n - 1) as nat).push(
            operand_text(operands[n - 1], (if n == 1 {
                None
            } else {
                width
            }), kind),
        )
    }
}

/// The operands of an instruction.
pub open spec fn generic_text(instr: InstructionModel, operands: Seq<OperandModel>) -> Seq<char> {
    if operands.len() == 0 {
        mnemonic_text(instr)
    } else {
        mnemonic_text(instr) + " "@ + joined(
            source_texts(
                operands,
                source_width(instr.opcode, operands[0].components),
                immediate_type(instr.opcode),
                operands.len(),
            ),
            ", "@,
        )
    }
}

/// The opcode with its modifier suffixes.
pub open spec fn mnemonic_text(instr: InstructionModel) -> Seq<char> {
    instr.opcode.mnemonic() + (match instr.resinfo_return_type {
        Some(v) => if v == 1 {
            "_rcpFloat"@
        } else if v == 2 {
            "_uint"@
        } else {
            ""@
        },
        None => ""@,
    }) + (if instr.saturate { "_sat"@ } else { ""@ }) + (match instr.tex_offsets {
        Some(o) => if o@[0] != 0 || o@[1] != 0 || o@[2] != 0 {
            "("@ + signed(o@[0] as int) + ", "@ + signed(o@[1] as int) + ", "@ + signed(o@[2] as int) + ")"@
        } else {
            ""@
        },
        None => ""@,
    })
}

/// Format the full instruction mnemonic, including modifier suffixes.
pub fn format_mnemonic(instr: &Instruction) -> (r: String)
    ensures
        r@ == mnemonic_text(instr@),
{
    let suffix = match instr.resinfo_return_type {
        Some(v) => if v == 1 {
            "_rcpFloat"
        } else if v == 2 {
            "_uint"
        } else {
            ""
        },
        None => "",
    };
    let sat = if instr.saturate { "_sat" } else { "" };
    let offsets = match instr.tex_offsets {
        Some(o) => if o[0] != 0 || o[1] != 0 || o[2] != 0 {
            let u = decimal_signed(o[0] as i64);
            let v = decimal_signed(o[1] as i64);
            let w = decimal_signed(o[2] as i64);
            cat7("(", u.as_str(), ", ", v.as_str(), ", ", w.as_str(), ")")
        } else {
            "".to_owned()
        },
        None => "".to_owned(),
    };
    cat4(instr.opcode.name(), suffix, sat, offsets.as_str())
}

fn format_generic(instr: &Instruction, operands: &Vec<Operand>) -> (r: String)
    ensures
        r@ == generic_text(instr@, operand_models(operands@)),
{
    let head = format_mnemonic(instr);
    if operands.len() == 0 {
        return head;
    }
    let kind = opcode_imm_type(instr.opcode);
    let width = source_width_override(instr.opcode, &operands[0].components);
    let ghost all = operand_models(operands@);
    let ghost cut = source_width(instr.opcode, all[0].components);
    let mut out: Vec<String> = Vec::new();
    let mut i: usize = 0;
    proof {
        assert(views(out@) =~= Seq::empty());
    }
    while i < operands.len()
        invariant
            i <= operands@.len(),
            all == operand_models(operands@),
            cut == (match width {
                Some(n) => Some(n as nat),
                None => None,
            }),
            views(out@) == source_texts(all, cut, kind, i as nat),
        decreases operands@.len() - i,
    {
        let ghost before = views(out@);
        let text = if i == 0 {
            format_operand_core(&operands[i], None, kind)
        } else {
            format_operand_core(&operands[i], width, kind)
        };
        out.push(text);
        i = i + 1;
        proof {
            assert(views(out@) =~= before.push(
                operand_text(all[i - 1], (if i == 1 {
                    None
                } else {
                    cut
                }), kind),
            ));
        }
    }
    let list = join(out.as_slice(), ", ");
    cat3(head.as_str(), " ", list.as_str())
}

/// The four return types of a resource.
pub open spec fn return_types_text(types: [ReturnType; 4]) -> Seq<char> {
    types@[0].name_text() + ","@ + types@[1].name_text() + ","@ + types@[2].name_text() + ","@ + types@[3].name_text()
}

fn format_return_types(types: &[ReturnType; 4]) -> (r: String)
    ensures
        r@ == return_types_text(*types),
{
    cat7(types[0].name(), ",", types[1].name(), ",", types[2].name(), ",", types[3].name())
}

/// The suffixes of an unordered access view.
pub open spec fn uav_flags_text(flags: u32) -> Seq<char> {
    (if flags % 2 == 1 { "_glc"@ } else { ""@ }) + (if (flags / 2) % 2 == 1 { "_opc"@ } else { ""@ })
}

fn format_uav_flags(flags: u32) -> (r: String)
    ensures
        r@ == uav_flags_text(flags),
{
    let glc = if flags % 2 == 1 { "_glc" } else { "" };
    let opc = if (flags / 2) % 2 == 1 { "_opc" } else { "" };
    cat2(glc, opc)
}

/// The first `n` numbers, each behind a prefix.
pub open spec fn numbered_texts(prefix: Seq<char>, values: Seq<u32>, n: nat) -> Seq<Seq<char>>
    decreases n,
{
    if n == 0 {
        Seq::empty()
    } else {
        numbered_texts(prefix, values, (n - 1) as nat).push(prefix + dec(values[n - 1] as nat))
    }
}

/// The numbers, each behind a prefix, with commas between.
pub open spec fn numbered_text(prefix: Seq<char>, values: Seq<u32>) -> Seq<char> {
    joined(numbered_texts(prefix, values, values.len()), ", "@)
}

fn format_numbered(prefix: &str, words: &Words) -> (r: String)
    ensures
        r@ == numbered_text(prefix@, words@),
{
    let values = words.as_slice();
    let mut out: Vec<String> = Vec::new();
    let mut i: usize = 0;
    proof {
        assert(views(out@) =~= Seq::empty());
    }
    while i < values.len()
        invariant
            i <= values@.len(),
            views(out@) == numbered_texts(prefix@, values@, i as nat),
        decreases values@.len() - i,
    {
        let ghost before = views(out@);
        let number = decimal(values[i] as u64);
        let text = cat2(prefix, number.as_str());
        out.push(text);
        i = i + 1;
        proof {
            assert(views(out@) =~= before.push(prefix@ + dec(values@[i - 1] as nat)));
        }
    }
    join(out.as_slice(), ", ")
}

fn format_flags(flags: &super::ir::FlagNames) -> (r: String)
    ensures
        r@ == joined(flags@, "|"@),
{
    let names = flags.as_slice();
    let mut out: Vec<String> = Vec::new();
    let mut i: usize = 0;
    while i < names.len()
        invariant
            i <= names@.len(),
            flags@ == names@.map_values(|s: &'static str| s@),
            views(out@) == flags@.take(i as int),
        decreases names@.len() - i,
    {
        let ghost before = views(out@);
        out.push(names[i].to_owned());
        i = i + 1;
        proof {
            assert(views(out@) =~= before.push(names@[i - 1]@));
            assert(flags@.take(i as int) =~= flags@.take(i - 1).push(flags@[i - 1]));
        }
    }
    proof {
        assert(flags@.take(i as int) =~= flags@);
    }
    join(out.as_slice(), "|")
}

/// The system value behind a signature declaration, where it has one that is defined.
pub open spec fn system_suffix(value: Option<Seq<char>>) -> Seq<char> {
    match value {
        Some(sv) => if sv == "undefined"@ {
            ""@
        } else {
            ", "@ + sv
        },
        None => ""@,
    }
}

fn format_system_suffix(value: Option<&'static str>) -> (r: String)
    ensures
        r@ == system_suffix(super::ir::text_model(value)),
{
    match value {
        Some(sv) => if same(sv, "undefined") {
            "".to_owned()
        } else {
            cat2(", ", sv)
        },
        None => "".to_owned(),
    }
}

/// An input declaration: its interpolation, its operands and its system value.
pub open spec fn input_text(
    name: Seq<char>,
    interpolation: Option<Seq<char>>,
    system_value: Option<Seq<char>>,
    operands: Seq<OperandModel>,
) -> Seq<char> {
    let between = match interpolation {
        Some(interp) => " "@ + interp + (if operands.len() > 0 { ", "@ } else { ""@ }),
        None => if operands.len() > 0 {
            " "@
        } else {
            ""@
        },
    };
    name + between + operand_list_text(operands) + system_suffix(system_value)
}

fn format_input(
    name: &str,
    interpolation: Option<&'static str>,
    system_value: Option<&'static str>,
    operands: &Vec<Operand>,
) -> (r: String)
    ensures
        r@ == input_text(
            name@,
            super::ir::text_model(interpolation),
            super::ir::text_model(system_value),
            operand_models(operands@),
        ),
{
    let between = match interpolation {
        Some(interp) => {
            let comma = if operands.len() > 0 { ", " } else { "" };
            cat3(" ", interp, comma)
        },
        None => if operands.len() > 0 {
            " ".to_owned()
        } else {
            "".to_owned()
        },
    };
    let list = format_operand_list(operands);
    let suffix = format_system_suffix(system_value);
    cat4(name, between.as_str(), list.as_str(), suffix.as_str())
}

/// An output declaration: its operands and its system value.
pub open spec fn output_text(name: Seq<char>, system_value: Option<Seq<char>>, operands: Seq<OperandModel>) -> Seq<char> {
    name + (if operands.len() > 0 {
        " "@ + operand_list_text(operands)
    } else {
        ""@
    }) + system_suffix(system_value)
}

fn format_output(name: &str, system_value: Option<&'static str>, operands: &Vec<Operand>) -> (r: String)
    ensures
        r@ == output_text(name@, super::ir::text_model(system_value), operand_models(operands@)),
{
    let list = if operands.len() > 0 {
        let held = format_operand_list(operands);
        cat2(" ", held.as_str())
    } else {
        "".to_owned()
    };
    let suffix = format_system_suffix(system_value);
    cat3(name, list.as_str(), suffix.as_str())
}

/// A declaration.
pub open spec fn declaration_text(opcode: Opcode, kind: KindModel) -> Seq<char> {
    match kind {
        KindModel::DclGlobalFlags { flags } => "dcl_globalFlags "@ + joined(flags, "|"@),
        KindModel::DclInput { interpolation, system_value, operands } => input_text(
            opcode.mnemonic(),
            interpolation,
            system_value,
            operands,
        ),
        KindModel::DclOutput { system_value, operands } => output_text(opcode.mnemonic(), system_value, operands),
        KindModel::DclResource { dimension, return_type, operands, .. } => "dcl_resource_"@ + dimension + " ("@
            + return_types_text(return_type) + ") "@ + operand_list_text(operands),
        KindModel::DclSampler { mode, operands } => "dcl_sampler "@ + operand_list_text(operands) + ", mode_"@ + mode,
        KindModel::DclConstantBuffer { access, operands } => "dcl_constantbuffer "@ + operand_list_text(operands)
            + ", "@ + access,
        KindModel::DclTemps { count } => "dcl_temps "@ + dec(count as nat),
        KindModel::DclIndexableTemp { reg, size, components } => "dcl_indexableTemp x"@ + dec(reg as nat) + "["@ + dec(
            size as nat,
        ) + "], "@ + dec(components as nat),
        KindModel::DclGsInputPrimitive { primitive } => match primitive {
            GsPrimitive::ControlPointPatch(n) => "dcl_inputPrimitive patchlist_"@ + dec(n as nat),
            _ => "dcl_inputPrimitive "@ + primitive.name_text(),
        },
        KindModel::DclGsOutputTopology { topology } => "dcl_outputTopology "@ + topology.name_text(),
        KindModel::DclMaxOutputVertexCount { count } => "dcl_maxOutputVertexCount "@ + dec(count as nat),
        KindModel::DclGsInstanceCount { count } => "dcl_gsInstanceCount "@ + dec(count as nat),
        KindModel::DclOutputControlPointCount { count } => "dcl_outputControlPointCount "@ + dec(count as nat),
        KindModel::DclInputControlPointCount { count } => "dcl_inputControlPointCount "@ + dec(count as nat),
        KindModel::DclTessDomain { domain } => "dcl_tessDomain "@ + domain,
        KindModel::DclTessPartitioning { partitioning } => "dcl_tessPartitioning "@ + partitioning,
        KindModel::DclTessOutputPrimitive { primitive } => "dcl_tessOutputPrimitive "@ + primitive,
        KindModel::DclHsMaxTessFactor { value } => "dcl_hsMaxTessFactor "@ + crate::float::display32(value),
        KindModel::DclHsForkPhaseInstanceCount { count } => "dcl_hsForkPhaseInstanceCount "@ + dec(count as nat),
        KindModel::DclThreadGroup { x, y, z } => "dcl_thread_group "@ + dec(x as nat) + ", "@ + dec(y as nat) + ", "@
            + dec(z as nat),
        KindModel::DclUavTyped { dimension, return_type, operands, .. } => "dcl_uav_typed_"@ + dimension + " ("@
            + return_types_text(return_type) + ") "@ + operand_list_text(operands),
        KindModel::DclUavRaw { flags, operands } => "dcl_uav_raw"@ + uav_flags_text(flags) + " "@ + operand_list_text(
            operands,
        ),
        KindModel::DclUavStructured { flags, stride, operands } => "dcl_uav_structured"@ + uav_flags_text(flags) + " "@
            + operand_list_text(operands) + ", "@ + dec(stride as nat),
        KindModel::DclResourceRaw { operands } => "dcl_resource_raw "@ + operand_list_text(operands),
        KindModel::DclResourceStructured { stride, operands } => "dcl_resource_structured "@ + operand_list_text(operands)
            + ", "@ + dec(stride as nat),
        KindModel::DclIndexRange { operands, count } => "dcl_indexRange "@ + operand_list_text(operands) + ", "@ + dec(
            count as nat,
        ),
        KindModel::DclFunctionBody { index } => "dcl_function_body fb"@ + dec(index as nat),
        KindModel::DclFunctionTable { table_index, body_indices } => "dcl_function_table ft"@ + dec(table_index as nat)
            + " = {"@ + numbered_text("fb"@, body_indices) + "}"@,
        KindModel::DclInterface { interface_index, num_call_sites, table_indices } => "dcl_interface fp"@ + dec(
            interface_index as nat,
        ) + "["@ + dec(num_call_sites as nat) + "]["@ + dec(table_indices.len()) + "] = {"@ + numbered_text(
            "ft"@,
            table_indices,
        ) + "}"@,
        _ => opcode.mnemonic(),
    }
}

fn after(head: &str, number: u32) -> (r: String)
    ensures
        r@ == head@ + dec(number as nat),
{
    let n = decimal(number as u64);
    cat2(head, n.as_str())
}

#[verifier::rlimit(40)]
#[verifier::spinoff_prover]
fn format_declaration(instr: &Instruction) -> (r: String)
    ensures
        r@ == declaration_text(instr.opcode, instr.kind@),
{
    let name = instr.opcode.name();
    match &instr.kind {
        InstructionKind::DclGlobalFlags { flags } => {
            let list = format_flags(flags);
            cat2("dcl_globalFlags ", list.as_str())
        },
        InstructionKind::DclInput { interpolation, system_value, operands } => format_input(
            name,
            *interpolation,
            *system_value,
            operands,
        ),
        InstructionKind::DclOutput { system_value, operands } => format_output(name, *system_value, operands),
        InstructionKind::DclResource { dimension, return_type, operands, .. } => {
            let types = format_return_types(return_type);
            let list = format_operand_list(operands);
            cat6("dcl_resource_", dimension, " (", types.as_str(), ") ", list.as_str())
        },
        InstructionKind::DclSampler { mode, operands } => {
            let list = format_operand_list(operands);
            cat4("dcl_sampler ", list.as_str(), ", mode_", mode)
        },
        InstructionKind::DclConstantBuffer { access, operands } => {
            let list = format_operand_list(operands);
            cat4("dcl_constantbuffer ", list.as_str(), ", ", access)
        },
        InstructionKind::DclTemps { count } => after("dcl_temps ", *count),
        InstructionKind::DclIndexableTemp { reg, size, components } => {
            let r = decimal(*reg as u64);
            let s = decimal(*size as u64);
            let c = decimal(*components as u64);
            cat6("dcl_indexableTemp x", r.as_str(), "[", s.as_str(), "], ", c.as_str())
        },
        InstructionKind::DclGsInputPrimitive { primitive } => match primitive {
            GsPrimitive::ControlPointPatch(n) => {
                let count = decimal(*n as u64);
                cat2("dcl_inputPrimitive patchlist_", count.as_str())
            },
            _ => cat2("dcl_inputPrimitive ", primitive.name()),
        },
        InstructionKind::DclGsOutputTopology { topology } => cat2("dcl_outputTopology ", topology.name()),
        InstructionKind::DclMaxOutputVertexCount { count } => after("dcl_maxOutputVertexCount ", *count),
        InstructionKind::DclGsInstanceCount { count } => after("dcl_gsInstanceCount ", *count),
        InstructionKind::DclOutputControlPointCount { count } => after("dcl_outputControlPointCount ", *count),
        InstructionKind::DclInputControlPointCount { count } => after("dcl_inputControlPointCount ", *count),
        InstructionKind::DclTessDomain { domain } => cat2("dcl_tessDomain ", domain),
        InstructionKind::DclTessPartitioning { partitioning } => cat2("dcl_tessPartitioning ", partitioning),
        InstructionKind::DclTessOutputPrimitive { primitive } => cat2("dcl_tessOutputPrimitive ", primitive),
        InstructionKind::DclHsMaxTessFactor { value } => {
            let v = crate::float::display_single(*value);
            cat2("dcl_hsMaxTessFactor ", v.as_str())
        },
        InstructionKind::DclHsForkPhaseInstanceCount { count } => after("dcl_hsForkPhaseInstanceCount ", *count),
        InstructionKind::DclThreadGroup { x, y, z } => {
            let a = decimal(*x as u64);
            let b = decimal(*y as u64);
            let c = decimal(*z as u64);
            cat6("dcl_thread_group ", a.as_str(), ", ", b.as_str(), ", ", c.as_str())
        },
        InstructionKind::DclUavTyped { dimension, return_type, operands, .. } => {
            let types = format_return_types(return_type);
            let list = format_operand_list(operands);
            cat6("dcl_uav_typed_", dimension, " (", types.as_str(), ") ", list.as_str())
        },
        InstructionKind::DclUavRaw { flags, operands } => {
            let suffix = format_uav_flags(*flags);
            let list = format_operand_list(operands);
            cat4("dcl_uav_raw", suffix.as_str(), " ", list.as_str())
        },
        InstructionKind::DclUavStructured { flags, stride, operands } => {
            let suffix = format_uav_flags(*flags);
            let list = format_operand_list(operands);
            let s = decimal(*stride as u64);
            cat6("dcl_uav_structured", suffix.as_str(), " ", list.as_str(), ", ", s.as_str())
        },
        InstructionKind::DclResourceRaw { operands } => {
            let list = format_operand_list(operands);
            cat2("dcl_resource_raw ", list.as_str())
        },
        InstructionKind::DclResourceStructured { stride, operands } => {
            let list = format_operand_list(operands);
            let s = decimal(*stride as u64);
            cat4("dcl_resource_structured ", list.as_str(), ", ", s.as_str())
        },
        InstructionKind::DclIndexRange { operands, count } => {
            let list = format_operand_list(operands);
            let c = decimal(*count as u64);
            cat4("dcl_indexRange ", list.as_str(), ", ", c.as_str())
        },
        InstructionKind::DclFunctionBody { index } => after("dcl_function_body fb", *index),
        InstructionKind::DclFunctionTable { table_index, body_indices } => {
            let t = decimal(*table_index as u64);
            let list = format_numbered("fb", body_indices);
            cat5("dcl_function_table ft", t.as_str(), " = {", list.as_str(), "}")
        },
        InstructionKind::DclInterface { interface_index, num_call_sites, table_indices } => {
            let t = decimal(*interface_index as u64);
            let n = decimal(*num_call_sites as u64);
            let count = decimal(table_indices.as_slice().len() as u64);
            let list = format_numbered("ft", table_indices);
            let head = cat7("dcl_interface fp", t.as_str(), "[", n.as_str(), "][", count.as_str(), "] = {");
            cat3(head.as_str(), list.as_str(), "}")
        },
        _ => name.to_owned(),
    }
}

/// One row of an immediate constant buffer.
pub open spec fn row_text(row: [u32; 4]) -> Seq<char> {
    "\n  { "@ + immediate_text(row@[0], ImmediateType::Float) + ", "@ + immediate_text(row@[1], ImmediateType::Float)
        + ", "@ + immediate_text(row@[2], ImmediateType::Float) + ", "@ + immediate_text(
        row@[3],
        ImmediateType::Float,
    ) + " }"@
}

/// The first `n` rows of an immediate constant buffer.
pub open spec fn rows_text(values: Seq<[u32; 4]>, n: nat) -> Seq<char>
    decreases n,
{
    if n == 0 {
        Seq::empty()
    } else {
        rows_text(values, (n - 1) as nat) + row_text(values[n - 1])
    }
}

/// What a block of custom data is called.
pub open spec fn custom_name(subtype: CustomDataType) -> Seq<char> {
    match subtype {
        CustomDataType::Comment => "comment"@,
        CustomDataType::DebugInfo => "debuginfo"@,
        CustomDataType::Opaque => "opaque"@,
        _ => "dcl_immediateConstantBuffer"@,
    }
}

/// A block of custom data.
pub open spec fn custom_text(subtype: CustomDataType, values: Seq<[u32; 4]>, raw_dword_count: nat) -> Seq<char> {
    match subtype {
        CustomDataType::Other(v) => "customdata // subtype="@ + dec(v as nat) + ", "@ + dec(raw_dword_count)
            + " dwords"@,
        _ => if subtype == CustomDataType::ImmediateConstantBuffer && values.len() > 0 {
            custom_name(subtype) + " {"@ + rows_text(values, values.len()) + "\n}"@
        } else {
            custom_name(subtype) + " // "@ + dec(raw_dword_count) + " dwords"@
        },
    }
}

fn format_row(row: &[u32; 4]) -> (r: String)
    ensures
        r@ == row_text(*row),
{
    let a = format_immediate(row[0], ImmediateType::Float);
    let b = format_immediate(row[1], ImmediateType::Float);
    let c = format_immediate(row[2], ImmediateType::Float);
    let d = format_immediate(row[3], ImmediateType::Float);
    let head = cat7("\n  { ", a.as_str(), ", ", b.as_str(), ", ", c.as_str(), ", ");
    cat3(head.as_str(), d.as_str(), " }")
}

fn format_rows(values: &Vec<[u32; 4]>) -> (r: String)
    ensures
        r@ == rows_text(values@, values@.len()),
{
    let mut out = String::new();
    let mut i: usize = 0;
    proof {
        assert(out@ =~= Seq::empty());
    }
    while i < values.len()
        invariant
            i <= values@.len(),
            out@ == rows_text(values@, i as nat),
        decreases values@.len() - i,
    {
        let row = format_row(&values[i]);
        out.push_str(row.as_str());
        i = i + 1;
    }
    out
}

fn format_custom_data(subtype: CustomDataType, values: &Vec<[u32; 4]>, raw_dword_count: usize) -> (r: String)
    ensures
        r@ == custom_text(subtype, values@, raw_dword_count as nat),
{
    let count = decimal(raw_dword_count as u64);
    let name = match subtype {
        CustomDataType::Comment => "comment",
        CustomDataType::DebugInfo => "debuginfo",
        CustomDataType::Opaque => "opaque",
        CustomDataType::ImmediateConstantBuffer => "dcl_immediateConstantBuffer",
        CustomDataType::Other(v) => {
            let kind = decimal(v as u64);
            return cat5("customdata // subtype=", kind.as_str(), ", ", count.as_str(), " dwords");
        },
    };
    if subtype == CustomDataType::ImmediateConstantBuffer && values.len() > 0 {
        let rows = format_rows(values);
        cat4(name, " {", rows.as_str(), "\n}")
    } else {
        cat4(name, " // ", count.as_str(), " dwords")
    }
}

/// An instruction.
pub open spec fn instruction_text(instr: InstructionModel) -> Seq<char> {
    match instr.kind {
        KindModel::Generic { operands } => generic_text(instr, operands),
        KindModel::HsPhase => mnemonic_text(instr),
        KindModel::CustomData { subtype, values, raw_dword_count, .. } => custom_text(
            subtype,
            values,
            raw_dword_count as nat,
        ),
        _ => declaration_text(instr.opcode, instr.kind),
    }
}

/// Format a single [`Instruction`] into its disassembly text.
pub fn format_instruction(instr: &Instruction) -> (r: String)
    ensures
        r@ == instruction_text(instr@),
{
    match &instr.kind {
        InstructionKind::Generic { operands } => format_generic(instr, operands),
        InstructionKind::HsPhase => format_mnemonic(instr),
        InstructionKind::CustomData { subtype, values, raw_dword_count, .. } => format_custom_data(
            *subtype,
            values,
            *raw_dword_count,
        ),
        _ => format_declaration(instr),
    }
}

/// Format the bare opcode name.
pub fn format_opcode(opcode: &Opcode) -> (r: &'static str)
    ensures
        r@ == opcode.mnemonic(),
{
    opcode.name()
}

/// Format a single [`Operand`], its immediates as floats.
pub fn format_operand(op: &Operand) -> (r: String)
    ensures
        r@ == operand_text(op@, None, ImmediateType::Float),
{
    format_operand_core(op, None, ImmediateType::Float)
}

/// An opcode that ends a block, before which the text moves back out.
pub open spec fn closes(op: Opcode) -> bool {
    op == Opcode::Else || op == Opcode::EndIf || op == Opcode::EndLoop || op == Opcode::EndSwitch
}

/// An opcode that starts a block, behind which the text moves in.
pub open spec fn opens(op: Opcode) -> bool {
    op == Opcode::If || op == Opcode::Else || op == Opcode::Loop || op == Opcode::Switch
}

/// How far in an instruction stands that follows `depth`.
pub open spec fn own_depth(op: Opcode, depth: nat) -> nat {
    if closes(op) && depth > 0 {
        (depth - 1) as nat
    } else {
        depth
    }
}

/// How far in the text is behind the first `n` instructions.
pub open spec fn depth_after(instructions: Seq<InstructionModel>, n: nat) -> nat
    decreases n,
{
    if n == 0 {
        0
    } else {
        let op = instructions[n - 1].opcode;
        own_depth(op, depth_after(instructions, (n - 1) as nat)) + (if opens(op) {
            1nat
        } else {
            0nat
        })
    }
}

/// Two spaces for each step in.
pub open spec fn indentation(depth: nat) -> Seq<char>
    decreases depth,
{
    if depth == 0 {
        Seq::empty()
    } else {
        indentation((depth - 1) as nat) + "  "@
    }
}

/// The first `n` instructions, a line each.
pub open spec fn instructions_text(instructions: Seq<InstructionModel>, n: nat) -> Seq<char>
    decreases n,
{
    if n == 0 {
        Seq::empty()
    } else {
        let before = (n - 1) as nat;
        instructions_text(instructions, before) + indentation(
            own_depth(instructions[n - 1].opcode, depth_after(instructions, before)),
        ) + instruction_text(instructions[n - 1]) + "\n"@
    }
}

/// The first `n` warnings, a line each.
pub open spec fn warnings_text(warnings: Seq<Seq<char>>, n: nat) -> Seq<char>
    decreases n,
{
    if n == 0 {
        Seq::empty()
    } else {
        warnings_text(warnings, (n - 1) as nat) + "// WARNING: "@ + warnings[n - 1] + "\n"@
    }
}

/// A program: its version, its warnings and its instructions.
pub open spec fn program_text(program: ProgramModel) -> Seq<char> {
    program.shader_type + "_"@ + dec(program.major_version as nat) + "_"@ + dec(program.minor_version as nat) + "\n"@
        + warnings_text(program.warnings, program.warnings.len()) + instructions_text(
        program.instructions,
        program.instructions.len(),
    )
}

fn push_indentation(out: &mut String, depth: usize)
    ensures
        final(out)@ == old(out)@ + indentation(depth as nat),
{
    let ghost start = out@;
    let mut i: usize = 0;
    proof {
        assert(out@ =~= start + indentation(0));
    }
    while i < depth
        invariant
            i <= depth,
            out@ == start + indentation(i as nat),
        decreases depth - i,
    {
        out.push_str("  ");
        i = i + 1;
        proof {
            assert(out@ =~= start + indentation(i as nat));
        }
    }
}

fn format_warnings(warnings: &Vec<String>) -> (r: String)
    ensures
        r@ == warnings_text(views(warnings@), warnings@.len()),
{
    let ghost all = views(warnings@);
    let mut out = String::new();
    let mut i: usize = 0;
    proof {
        assert(out@ =~= Seq::empty());
    }
    while i < warnings.len()
        invariant
            i <= warnings@.len(),
            all == views(warnings@),
            out@ == warnings_text(all, i as nat),
        decreases warnings@.len() - i,
    {
        out.push_str("// WARNING: ");
        out.push_str(warnings[i].as_str());
        out.push_str("\n");
        i = i + 1;
    }
    out
}

fn format_instructions(instructions: &Vec<Instruction>) -> (r: String)
    ensures
        r@ == instructions_text(super::ir::instruction_models(instructions@), instructions@.len()),
{
    let ghost all = super::ir::instruction_models(instructions@);
    let mut out = String::new();
    let mut depth: usize = 0;
    let mut i: usize = 0;
    proof {
        assert(out@ =~= Seq::empty());
    }
    while i < instructions.len()
        invariant
            i <= instructions@.len(),
            depth <= i,
            all == super::ir::instruction_models(instructions@),
            depth == depth_after(all, i as nat),
            out@ == instructions_text(all, i as nat),
        decreases instructions@.len() - i,
    {
        let op = instructions[i].opcode;
        let closing: bool = op == Opcode::Else || op == Opcode::EndIf || op == Opcode::EndLoop || op
            == Opcode::EndSwitch;
        let opening: bool = op == Opcode::If || op == Opcode::Else || op == Opcode::Loop || op == Opcode::Switch;
        if closing && depth > 0 {
            depth = depth - 1;
        }
        push_indentation(&mut out, depth);
        let text = format_instruction(&instructions[i]);
        out.push_str(text.as_str());
        out.push_str("\n");
        if opening {
            depth = depth + 1;
        }
        i = i + 1;
    }
    out
}

/// Format a decoded [`Program`] into disassembly text.
pub fn format_program(program: &Program) -> (r: String)
    ensures
        r@ == program_text(program@),
{
    let major = decimal(program.major_version as u64);
    let minor = decimal(program.minor_version as u64);
    let head = cat6(program.shader_type, "_", major.as_str(), "_", minor.as_str(), "\n");
    let warnings = format_warnings(&program.warnings);
    let body = format_instructions(&program.instructions);
    cat3(head.as_str(), warnings.as_str(), body.as_str())
}

/// Write a decoded [`Program`] as disassembly text behind what `w` holds.
pub fn write_program(w: &mut String, program: &Program)
    ensures
        final(w)@ == old(w)@ + program_text(program@),
{
    let text = format_program(program);
    w.push_str(text.as_str());
}

/// Write a single [`Instruction`] behind what `w` holds.
pub fn write_instruction(w: &mut String, instr: &Instruction)
    ensures
        final(w)@ == old(w)@ + instruction_text(instr@),
{
    let text = format_instruction(instr);
    w.push_str(text.as_str());
}

/// Write the full instruction mnemonic behind what `w` holds.
pub fn write_mnemonic(w: &mut String, instr: &Instruction)
    ensures
        final(w)@ == old(w)@ + mnemonic_text(instr@),
{
    let text = format_mnemonic(instr);
    w.push_str(text.as_str());
}

/// Write a single [`Operand`] behind what `w` holds, its immediates as floats.
pub fn write_operand(w: &mut String, op: &Operand)
    ensures
        final(w)@ == old(w)@ + operand_text(op@, None, ImmediateType::Float),
{
    let text = format_operand(op);
    w.push_str(text.as_str());
}

/// Disassemble a SHEX or SHDR chunk into human-readable text. A chunk that cannot be decoded gives none.
pub fn disassemble(data: &[u8]) -> (r: String)
    ensures
        r@ == (if data@.len() >= 8 {
            program_text(super::decode::program_of(data@, [0x53u8, 0x48, 0x45, 0x58]))
        } else {
            Seq::empty()
        }),
{
    match decode(data) {
        Ok(program) => format_program(&program),
        Err(_) => {
            let r = String::new();
            proof {
                assert(r@ =~= Seq::empty());
            }
            r
        },
    }
}

} // verus!
