//! What the machine computes: the operation of each instruction as an expression of its sources.
use super::expr::{
    binary, binary_model, call, call1, call2, call3, call_model, choice, choice_model, coerce, coerced, constant,
    copy_words, models, selected, splat, splatted, unary, unary_model, Domain, Expr, ExprModel,
};
use crate::shex::ir::{operand_models, ComponentSelect, IndexModel, Operand, OperandIndex, OperandModel, RegisterType};
use crate::shex::opcodes::Opcode;
use crate::text::{cat2, cat4, cat7, dec, decimal, same};
use vstd::prelude::*;

verus! {

/// A cast to as many lanes as are being converted.
pub open spec fn sized_text(base: Seq<char>, width: nat) -> Seq<char> {
    if width <= 1 {
        base
    } else {
        base + dec(width)
    }
}

/// A cast to as many lanes as are being converted.
pub fn sized(base: &str, width: usize) -> (r: String)
    ensures
        r@ == sized_text(base@, width as nat),
{
    if width <= 1 {
        base.to_owned()
    } else {
        let d = decimal(width as u64);
        cat2(base, d.as_str())
    }
}

/// Destination operands an instruction leads with.
pub open spec fn destination_count(opcode: Opcode) -> nat {
    match opcode {
        Opcode::Sincos | Opcode::IMul | Opcode::UMul | Opcode::UDiv | Opcode::Swapc => 2,
        Opcode::Ret | Opcode::Retc | Opcode::Discard | Opcode::Break | Opcode::Breakc | Opcode::Continue
        | Opcode::Continuec | Opcode::Nop | Opcode::If | Opcode::Else | Opcode::EndIf | Opcode::Loop | Opcode::EndLoop
        | Opcode::Emit | Opcode::Cut | Opcode::Sync | Opcode::StoreRaw | Opcode::StoreStructured
        | Opcode::StoreUavTyped => 0,
        _ => 1,
    }
}

/// Destination operands an instruction leads with.
pub fn destinations(opcode: Opcode) -> (r: usize)
    ensures
        r == destination_count(opcode),
{
    match opcode {
        Opcode::Sincos | Opcode::IMul | Opcode::UMul | Opcode::UDiv | Opcode::Swapc => 2,
        Opcode::Ret | Opcode::Retc | Opcode::Discard | Opcode::Break | Opcode::Breakc | Opcode::Continue
        | Opcode::Continuec | Opcode::Nop | Opcode::If | Opcode::Else | Opcode::EndIf | Opcode::Loop | Opcode::EndLoop
        | Opcode::Emit | Opcode::Cut | Opcode::Sync | Opcode::StoreRaw | Opcode::StoreStructured
        | Opcode::StoreUavTyped => 0,
        _ => 1,
    }
}

/// The sources line up component for component with the destination. What does not, a dot product or a texture
/// fetch, builds its whole value first and is narrowed afterwards.
pub open spec fn lines_up(opcode: Opcode) -> bool {
    match opcode {
        Opcode::Dp2 | Opcode::Dp3 | Opcode::Dp4 | Opcode::Sample | Opcode::SampleB | Opcode::SampleL | Opcode::SampleD
        | Opcode::SampleC | Opcode::SampleCLz | Opcode::Gather4 | Opcode::Ld | Opcode::LdMs | Opcode::LdStructured
        | Opcode::LdRaw | Opcode::Resinfo | Opcode::BufInfo | Opcode::SampleInfo | Opcode::SamplePos | Opcode::Lod => false,
        _ => true,
    }
}

/// Whether the sources line up component for component with the destination.
pub fn elementwise(opcode: Opcode) -> (r: bool)
    ensures
        r == lines_up(opcode),
{
    match opcode {
        Opcode::Dp2 | Opcode::Dp3 | Opcode::Dp4 | Opcode::Sample | Opcode::SampleB | Opcode::SampleL | Opcode::SampleD
        | Opcode::SampleC | Opcode::SampleCLz | Opcode::Gather4 | Opcode::Ld | Opcode::LdMs | Opcode::LdStructured
        | Opcode::LdRaw | Opcode::Resinfo | Opcode::BufInfo | Opcode::SampleInfo | Opcode::SamplePos | Opcode::Lod => false,
        _ => true,
    }
}

/// The components that a mask has, upwards.
pub open spec fn mask_lanes(mask: u8) -> Seq<u8> {
    (if mask % 2 == 1 {
        seq![0u8]
    } else {
        Seq::empty()
    }) + (if (mask / 2) % 2 == 1 {
        seq![1u8]
    } else {
        Seq::empty()
    }) + (if (mask / 4) % 2 == 1 {
        seq![2u8]
    } else {
        Seq::empty()
    }) + (if (mask / 8) % 2 == 1 {
        seq![3u8]
    } else {
        Seq::empty()
    })
}

fn lanes_of(mask: u8) -> (r: Vec<u8>)
    ensures
        r@ == mask_lanes(mask),
{
    let mut out: Vec<u8> = Vec::new();
    if mask % 2 == 1 {
        out.push(0);
    }
    if (mask / 2) % 2 == 1 {
        out.push(1);
    }
    if (mask / 4) % 2 == 1 {
        out.push(2);
    }
    if (mask / 8) % 2 == 1 {
        out.push(3);
    }
    proof {
        assert(out@ =~= mask_lanes(mask));
    }
    out
}

/// The components an operand supplies, given the destination lanes wanted.
pub open spec fn supplied(operand: OperandModel, lanes: Seq<u8>) -> Seq<u8> {
    match operand.components {
        ComponentSelect::Swizzle(swizzle) => Seq::new(lanes.len(), |i: int| swizzle@[lanes[i] as int % 4]),
        ComponentSelect::Mask(mask) => mask_lanes(mask),
        ComponentSelect::Scalar(component) => seq![component],
        ComponentSelect::OneComponent => seq![0u8],
        ComponentSelect::ZeroComponent => Seq::empty(),
    }
}

/// The components an operand supplies, given the destination lanes wanted.
pub fn components(operand: &Operand, lanes: &[u8]) -> (r: Vec<u8>)
    ensures
        r@ == supplied(operand@, lanes@),
{
    match &operand.components {
        ComponentSelect::Swizzle(swizzle) => {
            let mut out: Vec<u8> = Vec::new();
            let mut i: usize = 0;
            while i < lanes.len()
                invariant
                    i <= lanes@.len(),
                    out@.len() == i,
                    forall|k: int| 0 <= k < i ==> #[trigger] out@[k] == swizzle@[lanes@[k] as int % 4],
                decreases lanes@.len() - i,
            {
                out.push(swizzle[lanes[i] as usize % 4]);
                i = i + 1;
            }
            proof {
                assert(out@ =~= supplied(operand@, lanes@));
            }
            out
        },
        ComponentSelect::Mask(mask) => lanes_of(*mask),
        ComponentSelect::Scalar(component) => {
            let mut out: Vec<u8> = Vec::new();
            out.push(*component);
            proof {
                assert(out@ =~= seq![*component]);
            }
            out
        },
        ComponentSelect::OneComponent => {
            let mut out: Vec<u8> = Vec::new();
            out.push(0);
            proof {
                assert(out@ =~= seq![0u8]);
            }
            out
        },
        ComponentSelect::ZeroComponent => Vec::new(),
    }
}

/// The destination components an instruction writes, upwards.
pub open spec fn written_lanes(operand: OperandModel) -> Seq<u8> {
    match operand.components {
        ComponentSelect::Mask(mask) => mask_lanes(mask),
        ComponentSelect::Swizzle(swizzle) => swizzle@,
        ComponentSelect::Scalar(component) => seq![component],
        _ => seq![0u8],
    }
}

/// The destination components an instruction writes, upwards.
pub fn written(operand: &Operand) -> (r: Vec<u8>)
    ensures
        r@ == written_lanes(operand@),
{
    match &operand.components {
        ComponentSelect::Mask(mask) => lanes_of(*mask),
        ComponentSelect::Swizzle(swizzle) => {
            let mut out: Vec<u8> = Vec::new();
            out.push(swizzle[0]);
            out.push(swizzle[1]);
            out.push(swizzle[2]);
            out.push(swizzle[3]);
            proof {
                assert(out@ =~= swizzle@);
            }
            out
        },
        ComponentSelect::Scalar(component) => {
            let mut out: Vec<u8> = Vec::new();
            out.push(*component);
            proof {
                assert(out@ =~= seq![*component]);
            }
            out
        },
        _ => {
            let mut out: Vec<u8> = Vec::new();
            out.push(0);
            proof {
                assert(out@ =~= seq![0u8]);
            }
            out
        },
    }
}

/// The lanes an instruction writes, and so how wide it reads its sources, from one of its destinations on.
///
/// An opcode with two destinations may discard either to null, which names no lanes of its own. That has to be
/// spotted by register file: a null operand is written at lane x rather than at nothing. The two destinations
/// never disagree where both are real.
pub open spec fn lanes_written(dests: Seq<OperandModel>, n: int, from: int) -> Seq<u8>
    decreases n - from,
{
    if from < 0 || from >= n {
        Seq::empty()
    } else if dests[from].reg_type != RegisterType::Null && written_lanes(dests[from]).len() > 0 {
        written_lanes(dests[from])
    } else {
        lanes_written(dests, n, from + 1)
    }
}

/// The lanes that the first operands are written at.
pub fn destination_lanes(operands: &[Operand]) -> (r: Vec<u8>)
    ensures
        r@ == lanes_written(operand_models(operands@), operands@.len() as int, 0),
{
    first_lanes(operands, operands.len())
}

/// The lanes that the first operands of a list are written at.
pub fn first_lanes(operands: &[Operand], count: usize) -> (r: Vec<u8>)
    requires
        count <= operands@.len(),
    ensures
        r@ == lanes_written(operand_models(operands@), count as int, 0),
{
    let ghost all = operand_models(operands@);
    let mut i: usize = 0;
    while i < count
        invariant
            i <= count <= operands@.len(),
            all == operand_models(operands@),
            lanes_written(all, count as int, 0) == lanes_written(all, count as int, i as int),
        decreases count - i,
    {
        assert(all[i as int] == operands@[i as int]@);
        if operands[i].reg_type != RegisterType::Null {
            let lanes = written(&operands[i]);
            if lanes.len() > 0 {
                return lanes;
            }
        }
        i = i + 1;
    }
    Vec::new()
}

/// The immediate index of an operand.
pub open spec fn immediate_of(operand: OperandModel) -> Option<u32> {
    if operand.indices.len() == 0 {
        None
    } else {
        match operand.indices[0] {
            IndexModel::Imm32(value) => Some(value),
            _ => None,
        }
    }
}

/// The immediate index of an operand, nought where it has none.
pub open spec fn index_of(operand: OperandModel) -> u32 {
    match immediate_of(operand) {
        Some(value) => value,
        None => 0,
    }
}

/// The immediate index of an operand.
pub fn immediate(operand: &Operand) -> (r: Option<u32>)
    ensures
        r == immediate_of(operand@),
{
    proof {
        assert(operand@.indices.len() == operand.indices@.len());
        if operand.indices@.len() > 0 {
            assert(operand@.indices[0] == operand.indices@[0]@);
        }
    }
    if operand.indices.len() == 0 {
        return None;
    }
    match &operand.indices[0] {
        OperandIndex::Imm32(value) => Some(*value),
        _ => None,
    }
}

/// The immediate index of an operand, nought where it has none.
pub fn index_or_zero(operand: &Operand) -> (r: u32)
    ensures
        r == index_of(operand@),
{
    match immediate(operand) {
        Some(value) => value,
        None => 0,
    }
}

/// The bit operation that takes bits out of a word, which the machine has and the language does not, written out so the
/// reading is a whole shader rather than one that leans on names nothing defines.
pub open spec fn bitfield_extract_text(width: nat) -> Seq<char> {
    let kind = sized_text("uint"@, width);
    kind + " bitfield_extract("@ + kind + " value, "@ + kind + " offset, "@ + kind + " width)\n{\n    return select(width == 0, ("@ + kind + ")0, (value << (32 - width - offset)) >> (32 - width));\n}"@
}

fn bitfield_extract(width: usize) -> (r: String)
    ensures
        r@ == bitfield_extract_text(width as nat),
{
    let kind = sized("uint", width);
    let mut out = String::new();
    out.push_str(kind.as_str());
    out.push_str(" bitfield_extract(");
    out.push_str(kind.as_str());
    out.push_str(" value, ");
    out.push_str(kind.as_str());
    out.push_str(" offset, ");
    out.push_str(kind.as_str());
    out.push_str(" width)\n{\n    return select(width == 0, (");
    out.push_str(kind.as_str());
    out.push_str(")0, (value << (32 - width - offset)) >> (32 - width));\n}");
    proof {
        assert(out@ =~= bitfield_extract_text(width as nat));
    }
    out
}

/// The bit operation that puts bits into a word.
pub open spec fn bitfield_insert_text(width: nat) -> Seq<char> {
    let kind = sized_text("uint"@, width);
    kind + " bitfield_insert("@ + kind + " base, "@ + kind + " insert, "@ + kind + " offset, "@ + kind + " width)\n{\n    "@ + kind + " mask = ((("@ + kind + ")1 << width) - 1) << offset;\n    return ((insert << offset) & mask) | (base & ~mask);\n}"@
}

fn bitfield_insert(width: usize) -> (r: String)
    ensures
        r@ == bitfield_insert_text(width as nat),
{
    let kind = sized("uint", width);
    let mut out = String::new();
    out.push_str(kind.as_str());
    out.push_str(" bitfield_insert(");
    out.push_str(kind.as_str());
    out.push_str(" base, ");
    out.push_str(kind.as_str());
    out.push_str(" insert, ");
    out.push_str(kind.as_str());
    out.push_str(" offset, ");
    out.push_str(kind.as_str());
    out.push_str(" width)\n{\n    ");
    out.push_str(kind.as_str());
    out.push_str(" mask = (((");
    out.push_str(kind.as_str());
    out.push_str(")1 << width) - 1) << offset;\n    return ((insert << offset) & mask) | (base & ~mask);\n}");
    proof {
        assert(out@ =~= bitfield_insert_text(width as nat));
    }
    out
}

/// The top half of a multiply, which the machine produces alongside the bottom and HLSL cannot express directly. Split
/// into halves so the intermediate stays inside thirty-two bits.
pub open spec fn mul_high_text(width: nat) -> Seq<char> {
    let kind = sized_text("uint"@, width);
    kind + " mul_high("@ + kind + " a, "@ + kind + " b)\n{\n    "@ + kind + " low = (a & 0xffffu) * (b & 0xffffu);\n    "@ + kind + " mid = (a >> 16) * (b & 0xffffu) + (low >> 16);\n    "@ + kind + " rest = (a & 0xffffu) * (b >> 16) + (mid & 0xffffu);\n    return (a >> 16) * (b >> 16) + (mid >> 16) + (rest >> 16);\n}"@
}

fn mul_high(width: usize) -> (r: String)
    ensures
        r@ == mul_high_text(width as nat),
{
    let kind = sized("uint", width);
    let mut out = String::new();
    out.push_str(kind.as_str());
    out.push_str(" mul_high(");
    out.push_str(kind.as_str());
    out.push_str(" a, ");
    out.push_str(kind.as_str());
    out.push_str(" b)\n{\n    ");
    out.push_str(kind.as_str());
    out.push_str(" low = (a & 0xffffu) * (b & 0xffffu);\n    ");
    out.push_str(kind.as_str());
    out.push_str(" mid = (a >> 16) * (b & 0xffffu) + (low >> 16);\n    ");
    out.push_str(kind.as_str());
    out.push_str(" rest = (a & 0xffffu) * (b >> 16) + (mid & 0xffffu);\n    return (a >> 16) * (b >> 16) + (mid >> 16) + (rest >> 16);\n}");
    proof {
        assert(out@ =~= mul_high_text(width as nat));
    }
    out
}

/// What a resource of a dimension reports: the names of what comes out, and the value they make.
pub open spec fn dimension_parts(dimension: Seq<char>) -> (Seq<char>, Seq<char>) {
    if dimension == "texture1d"@ {
        ("width, levels"@, "float4(width, 0.0, 0.0, levels)"@)
    } else if dimension == "texture1darray"@ {
        ("width, elements, levels"@, "float4(width, elements, 0.0, levels)"@)
    } else if dimension == "texture3d"@ {
        ("width, height, depth, levels"@, "float4(width, height, depth, levels)"@)
    } else if dimension == "texture2darray"@ || dimension == "texturecubearray"@ {
        ("width, height, elements, levels"@, "float4(width, height, elements, levels)"@)
    } else {
        ("width, height, levels"@, "float4(width, height, 0.0, levels)"@)
    }
}

/// What a resource reports about itself. One is written per texture that is asked, because a function taking a
/// texture as a parameter is not something every compiler accepts.
pub open spec fn dimensions_text(name: Seq<char>, dimension: Seq<char>) -> Seq<char> {
    let (outs, value) = dimension_parts(dimension);
    "float4 dimensions_"@ + name + "(float mip)\n{\n    uint "@ + outs + ";\n    "@ + name
        + ".GetDimensions((uint)mip, "@ + outs + ");\n    return "@ + value + ";\n}"@
}

pub(crate) fn dimensions_helper(name: &str, dimension: &str) -> (r: String)
    ensures
        r@ == dimensions_text(name@, dimension@),
{
    let (outs, value) = if same(dimension, "texture1d") {
        ("width, levels", "float4(width, 0.0, 0.0, levels)")
    } else if same(dimension, "texture1darray") {
        ("width, elements, levels", "float4(width, elements, 0.0, levels)")
    } else if same(dimension, "texture3d") {
        ("width, height, depth, levels", "float4(width, height, depth, levels)")
    } else if same(dimension, "texture2darray") || same(dimension, "texturecubearray") {
        ("width, height, elements, levels", "float4(width, height, elements, levels)")
    } else {
        ("width, height, levels", "float4(width, height, 0.0, levels)")
    };
    let head = cat7(
        "float4 dimensions_",
        name,
        "(float mip)\n{\n    uint ",
        outs,
        ";\n    ",
        name,
        ".GetDimensions((uint)mip, ",
    );
    let tail = cat4(outs, ");\n    return ", value, ";\n}");
    let r = cat2(head.as_str(), tail.as_str());
    proof {
        assert(r@ =~= dimensions_text(name@, dimension@));
    }
    r
}

/// What each source of a list holds.
pub open spec fn source_models(sources: Seq<(Expr, Domain)>) -> Seq<(ExprModel, Domain)> {
    Seq::new(sources.len(), |i: int| (sources[i].0@, sources[i].1))
}

/// What a list of values holds, one per destination.
pub open spec fn value_model(value: Option<(Expr, Domain)>) -> Option<(ExprModel, Domain)> {
    match value {
        Some((e, d)) => Some((e@, d)),
        None => None,
    }
}

/// What each value of a list holds.
pub open spec fn value_models(values: Seq<Option<(Expr, Domain)>>) -> Seq<Option<(ExprModel, Domain)>> {
    Seq::new(values.len(), |i: int| value_model(values[i]))
}

/// Nought in a domain.
pub open spec fn nought(domain: Domain) -> ExprModel {
    ExprModel::Literal { bits: seq![0u32], domain }
}

/// A source read in a domain, nought where there is none.
pub open spec fn got(sources: Seq<(ExprModel, Domain)>, at: int, want: Domain) -> ExprModel {
    if 0 <= at < sources.len() {
        coerced(sources[at].0, sources[at].1, want)
    } else {
        nought(want)
    }
}

pub(crate) fn zero(domain: Domain) -> (r: Expr)
    ensures
        r@ == nought(domain),
{
    let mut bits: Vec<u32> = Vec::new();
    bits.push(0);
    proof {
        assert(bits@ =~= seq![0u32]);
    }
    constant(bits, domain)
}

fn get(sources: &Vec<(Expr, Domain)>, at: usize, want: Domain) -> (r: Expr)
    ensures
        r@ == got(source_models(sources@), at as int, want),
{
    if at < sources.len() {
        coerce(sources[at].0.duplicate(), sources[at].1, want)
    } else {
        zero(want)
    }
}

/// A float somebody wrote on purpose: an integer kept in a register is a handful of bits, which read as a float is
/// a denormal.
pub open spec fn plain_bits(bits: u32) -> bool {
    bits % 0x8000_0000 == 0 || 0x0080_0000 <= bits % 0x8000_0000 < 0x7F80_0000
}

/// Every lane is plainly a float.
pub open spec fn all_plain(bits: Seq<u32>) -> bool {
    forall|i: int| 0 <= i < bits.len() ==> plain_bits(#[trigger] bits[i])
}

/// A condition and the constant it picks, where an `and` is a mask against one. The constant is only worth reading
/// as a float where it plainly is one.
pub open spec fn picks(cond: (ExprModel, Domain), held: (ExprModel, Domain)) -> bool {
    cond.1 == Domain::Bool && held.0 is Literal && all_plain(held.0->bits)
}

/// A condition and the bits of the constant it picks.
pub open spec fn chosen(sources: Seq<(ExprModel, Domain)>) -> Option<(ExprModel, Seq<u32>)> {
    if sources.len() != 2 {
        None
    } else if picks(sources[0], sources[1]) {
        Some((sources[0].0, sources[1].0->bits))
    } else if picks(sources[1], sources[0]) {
        Some((sources[1].0, sources[0].0->bits))
    } else {
        None
    }
}

fn is_plain(bits: &Vec<u32>) -> (r: bool)
    ensures
        r == all_plain(bits@),
{
    let mut i: usize = 0;
    while i < bits.len()
        invariant
            i <= bits@.len(),
            forall|k: int| 0 <= k < i ==> plain_bits(#[trigger] bits@[k]),
        decreases bits@.len() - i,
    {
        let magnitude: u32 = bits[i] % 0x8000_0000;
        if !(magnitude == 0 || (0x0080_0000 <= magnitude && magnitude < 0x7F80_0000)) {
            return false;
        }
        i = i + 1;
    }
    true
}

fn pick(cond: &(Expr, Domain), held: &(Expr, Domain)) -> (r: Option<(Expr, Vec<u32>)>)
    ensures
        match r {
            Some((e, bits)) => picks((cond.0@, cond.1), (held.0@, held.1)) && e@ == cond.0@ && bits@ == held.0@->bits,
            None => !picks((cond.0@, cond.1), (held.0@, held.1)),
        },
{
    match &held.0 {
        Expr::Literal { bits, .. } => {
            if cond.1 == Domain::Bool && is_plain(bits) {
                Some((cond.0.duplicate(), copy_words(bits.as_slice())))
            } else {
                None
            }
        },
        _ => None,
    }
}

fn choose_constant(sources: &Vec<(Expr, Domain)>) -> (r: Option<(Expr, Vec<u32>)>)
    ensures
        match r {
            Some((e, bits)) => chosen(source_models(sources@)) == Some((e@, bits@)),
            None => chosen(source_models(sources@)) is None,
        },
{
    if sources.len() != 2 {
        return None;
    }
    let first = pick(&sources[0], &sources[1]);
    if first.is_some() {
        return first;
    }
    pick(&sources[1], &sources[0])
}

/// Every lane is one.
pub open spec fn all_one(bits: Seq<u32>) -> bool {
    forall|i: int| 0 <= i < bits.len() ==> #[trigger] bits[i] == 0x3F80_0000
}

fn are_one(bits: &Vec<u32>) -> (r: bool)
    ensures
        r == all_one(bits@),
{
    let mut i: usize = 0;
    while i < bits.len()
        invariant
            i <= bits@.len(),
            forall|k: int| 0 <= k < i ==> #[trigger] bits@[k] == 0x3F80_0000,
        decreases bits@.len() - i,
    {
        if bits[i] != 0x3F80_0000 {
            return false;
        }
        i = i + 1;
    }
    true
}

/// Every source is a condition.
pub open spec fn all_bool(sources: Seq<(ExprModel, Domain)>) -> bool {
    forall|i: int| 0 <= i < sources.len() ==> (#[trigger] sources[i]).1 == Domain::Bool
}

fn are_bool(sources: &Vec<(Expr, Domain)>) -> (r: bool)
    ensures
        r == all_bool(source_models(sources@)),
{
    let ghost all = source_models(sources@);
    let mut i: usize = 0;
    while i < sources.len()
        invariant
            i <= sources@.len(),
            all == source_models(sources@),
            forall|k: int| 0 <= k < i ==> (#[trigger] all[k]).1 == Domain::Bool,
        decreases sources@.len() - i,
    {
        assert(all[i as int].1 == sources@[i as int].1);
        if sources[i].1 != Domain::Bool {
            return false;
        }
        i = i + 1;
    }
    true
}

/// What the operations of one value compute that are just their operator.
pub open spec fn plain_value(opcode: Opcode, sources: Seq<(ExprModel, Domain)>, width: usize) -> Option<
    (ExprModel, Domain),
> {
    match opcode {
        Opcode::Add => Some((binary_model("+"@, got(sources, 0, Domain::Float), got(sources, 1, Domain::Float)), Domain::Float)),
        Opcode::Mul => Some((binary_model("*"@, got(sources, 0, Domain::Float), got(sources, 1, Domain::Float)), Domain::Float)),
        Opcode::Div => Some((binary_model("/"@, got(sources, 0, Domain::Float), got(sources, 1, Domain::Float)), Domain::Float)),
        Opcode::Mad => Some((binary_model("+"@, binary_model("*"@, got(sources, 0, Domain::Float), got(sources, 1, Domain::Float)), got(sources, 2, Domain::Float)), Domain::Float)),
        Opcode::Min => Some((call_model("min"@, seq![got(sources, 0, Domain::Float), got(sources, 1, Domain::Float)], width), Domain::Float)),
        Opcode::Max => Some((call_model("max"@, seq![got(sources, 0, Domain::Float), got(sources, 1, Domain::Float)], width), Domain::Float)),
        Opcode::Frc => Some((call_model("frac"@, seq![got(sources, 0, Domain::Float)], width), Domain::Float)),
        Opcode::Exp => Some((call_model("exp2"@, seq![got(sources, 0, Domain::Float)], width), Domain::Float)),
        Opcode::Log => Some((call_model("log2"@, seq![got(sources, 0, Domain::Float)], width), Domain::Float)),
        Opcode::Rcp => Some((call_model("rcp"@, seq![got(sources, 0, Domain::Float)], width), Domain::Float)),
        Opcode::Rsq => Some((call_model("rsqrt"@, seq![got(sources, 0, Domain::Float)], width), Domain::Float)),
        Opcode::Sqrt => Some((call_model("sqrt"@, seq![got(sources, 0, Domain::Float)], width), Domain::Float)),
        Opcode::Round_ne => Some((call_model("round"@, seq![got(sources, 0, Domain::Float)], width), Domain::Float)),
        Opcode::Round_ni => Some((call_model("floor"@, seq![got(sources, 0, Domain::Float)], width), Domain::Float)),
        Opcode::Round_pi => Some((call_model("ceil"@, seq![got(sources, 0, Domain::Float)], width), Domain::Float)),
        Opcode::Round_z => Some((call_model("trunc"@, seq![got(sources, 0, Domain::Float)], width), Domain::Float)),
        Opcode::Deriv_rtx => Some((call_model("ddx"@, seq![got(sources, 0, Domain::Float)], width), Domain::Float)),
        Opcode::Deriv_rty => Some((call_model("ddy"@, seq![got(sources, 0, Domain::Float)], width), Domain::Float)),
        Opcode::Deriv_rtx_coarse => Some((call_model("ddx_coarse"@, seq![got(sources, 0, Domain::Float)], width), Domain::Float)),
        Opcode::Deriv_rty_coarse => Some((call_model("ddy_coarse"@, seq![got(sources, 0, Domain::Float)], width), Domain::Float)),
        Opcode::Deriv_rtx_fine => Some((call_model("ddx_fine"@, seq![got(sources, 0, Domain::Float)], width), Domain::Float)),
        Opcode::Deriv_rty_fine => Some((call_model("ddy_fine"@, seq![got(sources, 0, Domain::Float)], width), Domain::Float)),
        Opcode::Eq => Some((binary_model("=="@, got(sources, 0, Domain::Float), got(sources, 1, Domain::Float)), Domain::Bool)),
        Opcode::Ne => Some((binary_model("!="@, got(sources, 0, Domain::Float), got(sources, 1, Domain::Float)), Domain::Bool)),
        Opcode::Lt => Some((binary_model("<"@, got(sources, 0, Domain::Float), got(sources, 1, Domain::Float)), Domain::Bool)),
        Opcode::Ge => Some((binary_model(">="@, got(sources, 0, Domain::Float), got(sources, 1, Domain::Float)), Domain::Bool)),
        Opcode::IEq => Some((binary_model("=="@, got(sources, 0, Domain::Int), got(sources, 1, Domain::Int)), Domain::Bool)),
        Opcode::INe => Some((binary_model("!="@, got(sources, 0, Domain::Int), got(sources, 1, Domain::Int)), Domain::Bool)),
        Opcode::ILt => Some((binary_model("<"@, got(sources, 0, Domain::Int), got(sources, 1, Domain::Int)), Domain::Bool)),
        Opcode::IGe => Some((binary_model(">="@, got(sources, 0, Domain::Int), got(sources, 1, Domain::Int)), Domain::Bool)),
        Opcode::ULt => Some((binary_model("<"@, got(sources, 0, Domain::Uint), got(sources, 1, Domain::Uint)), Domain::Bool)),
        Opcode::UGe => Some((binary_model(">="@, got(sources, 0, Domain::Uint), got(sources, 1, Domain::Uint)), Domain::Bool)),
        Opcode::Xor => Some((binary_model("^"@, got(sources, 0, Domain::Uint), got(sources, 1, Domain::Uint)), Domain::Uint)),
        Opcode::Not => Some((unary_model("~"@, got(sources, 0, Domain::Uint)), Domain::Uint)),
        Opcode::INeg => Some((unary_model("-"@, got(sources, 0, Domain::Int)), Domain::Int)),
        Opcode::Iadd => Some((binary_model("+"@, got(sources, 0, Domain::Int), got(sources, 1, Domain::Int)), Domain::Int)),
        Opcode::IMax => Some((call_model("max"@, seq![got(sources, 0, Domain::Int), got(sources, 1, Domain::Int)], width), Domain::Int)),
        Opcode::IMin => Some((call_model("min"@, seq![got(sources, 0, Domain::Int), got(sources, 1, Domain::Int)], width), Domain::Int)),
        Opcode::UMax => Some((call_model("max"@, seq![got(sources, 0, Domain::Uint), got(sources, 1, Domain::Uint)], width), Domain::Uint)),
        Opcode::UMin => Some((call_model("min"@, seq![got(sources, 0, Domain::Uint), got(sources, 1, Domain::Uint)], width), Domain::Uint)),
        Opcode::IMad => Some((binary_model("+"@, binary_model("*"@, got(sources, 0, Domain::Int), got(sources, 1, Domain::Int)), got(sources, 2, Domain::Int)), Domain::Int)),
        Opcode::UMad => Some((binary_model("+"@, binary_model("*"@, got(sources, 0, Domain::Uint), got(sources, 1, Domain::Uint)), got(sources, 2, Domain::Uint)), Domain::Uint)),
        Opcode::Ishl => Some((binary_model("<<"@, got(sources, 0, Domain::Int), got(sources, 1, Domain::Uint)), Domain::Int)),
        Opcode::Ishr => Some((binary_model(">>"@, got(sources, 0, Domain::Int), got(sources, 1, Domain::Uint)), Domain::Int)),
        Opcode::Ushr => Some((binary_model(">>"@, got(sources, 0, Domain::Uint), got(sources, 1, Domain::Uint)), Domain::Uint)),
        Opcode::Ftoi => Some((call_model(sized_text("int"@, width as nat), seq![got(sources, 0, Domain::Float)], width), Domain::Int)),
        Opcode::Ftou => Some((call_model(sized_text("uint"@, width as nat), seq![got(sources, 0, Domain::Float)], width), Domain::Uint)),
        Opcode::Itof => Some((call_model(sized_text("float"@, width as nat), seq![got(sources, 0, Domain::Int)], width), Domain::Float)),
        Opcode::Utof => Some((call_model(sized_text("float"@, width as nat), seq![got(sources, 0, Domain::Uint)], width), Domain::Float)),
        _ => None,
    }
}

fn plain(opcode: Opcode, sources: &Vec<(Expr, Domain)>, width: usize) -> (r: Option<(Expr, Domain)>)
    ensures
        value_model(r) == plain_value(opcode, source_models(sources@), width),
{
    match opcode {
        Opcode::Add => Some((binary("+", get(sources, 0, Domain::Float), get(sources, 1, Domain::Float)), Domain::Float)),
        Opcode::Mul => Some((binary("*", get(sources, 0, Domain::Float), get(sources, 1, Domain::Float)), Domain::Float)),
        Opcode::Div => Some((binary("/", get(sources, 0, Domain::Float), get(sources, 1, Domain::Float)), Domain::Float)),
        Opcode::Mad => Some((binary("+", binary("*", get(sources, 0, Domain::Float), get(sources, 1, Domain::Float)), get(sources, 2, Domain::Float)), Domain::Float)),
        Opcode::Min => Some((call2("min", get(sources, 0, Domain::Float), get(sources, 1, Domain::Float), width), Domain::Float)),
        Opcode::Max => Some((call2("max", get(sources, 0, Domain::Float), get(sources, 1, Domain::Float), width), Domain::Float)),
        Opcode::Frc => Some((call1("frac", get(sources, 0, Domain::Float), width), Domain::Float)),
        Opcode::Exp => Some((call1("exp2", get(sources, 0, Domain::Float), width), Domain::Float)),
        Opcode::Log => Some((call1("log2", get(sources, 0, Domain::Float), width), Domain::Float)),
        Opcode::Rcp => Some((call1("rcp", get(sources, 0, Domain::Float), width), Domain::Float)),
        Opcode::Rsq => Some((call1("rsqrt", get(sources, 0, Domain::Float), width), Domain::Float)),
        Opcode::Sqrt => Some((call1("sqrt", get(sources, 0, Domain::Float), width), Domain::Float)),
        Opcode::Round_ne => Some((call1("round", get(sources, 0, Domain::Float), width), Domain::Float)),
        Opcode::Round_ni => Some((call1("floor", get(sources, 0, Domain::Float), width), Domain::Float)),
        Opcode::Round_pi => Some((call1("ceil", get(sources, 0, Domain::Float), width), Domain::Float)),
        Opcode::Round_z => Some((call1("trunc", get(sources, 0, Domain::Float), width), Domain::Float)),
        Opcode::Deriv_rtx => Some((call1("ddx", get(sources, 0, Domain::Float), width), Domain::Float)),
        Opcode::Deriv_rty => Some((call1("ddy", get(sources, 0, Domain::Float), width), Domain::Float)),
        Opcode::Deriv_rtx_coarse => Some((call1("ddx_coarse", get(sources, 0, Domain::Float), width), Domain::Float)),
        Opcode::Deriv_rty_coarse => Some((call1("ddy_coarse", get(sources, 0, Domain::Float), width), Domain::Float)),
        Opcode::Deriv_rtx_fine => Some((call1("ddx_fine", get(sources, 0, Domain::Float), width), Domain::Float)),
        Opcode::Deriv_rty_fine => Some((call1("ddy_fine", get(sources, 0, Domain::Float), width), Domain::Float)),
        Opcode::Eq => Some((binary("==", get(sources, 0, Domain::Float), get(sources, 1, Domain::Float)), Domain::Bool)),
        Opcode::Ne => Some((binary("!=", get(sources, 0, Domain::Float), get(sources, 1, Domain::Float)), Domain::Bool)),
        Opcode::Lt => Some((binary("<", get(sources, 0, Domain::Float), get(sources, 1, Domain::Float)), Domain::Bool)),
        Opcode::Ge => Some((binary(">=", get(sources, 0, Domain::Float), get(sources, 1, Domain::Float)), Domain::Bool)),
        Opcode::IEq => Some((binary("==", get(sources, 0, Domain::Int), get(sources, 1, Domain::Int)), Domain::Bool)),
        Opcode::INe => Some((binary("!=", get(sources, 0, Domain::Int), get(sources, 1, Domain::Int)), Domain::Bool)),
        Opcode::ILt => Some((binary("<", get(sources, 0, Domain::Int), get(sources, 1, Domain::Int)), Domain::Bool)),
        Opcode::IGe => Some((binary(">=", get(sources, 0, Domain::Int), get(sources, 1, Domain::Int)), Domain::Bool)),
        Opcode::ULt => Some((binary("<", get(sources, 0, Domain::Uint), get(sources, 1, Domain::Uint)), Domain::Bool)),
        Opcode::UGe => Some((binary(">=", get(sources, 0, Domain::Uint), get(sources, 1, Domain::Uint)), Domain::Bool)),
        Opcode::Xor => Some((binary("^", get(sources, 0, Domain::Uint), get(sources, 1, Domain::Uint)), Domain::Uint)),
        Opcode::Not => Some((unary("~", get(sources, 0, Domain::Uint)), Domain::Uint)),
        Opcode::INeg => Some((unary("-", get(sources, 0, Domain::Int)), Domain::Int)),
        Opcode::Iadd => Some((binary("+", get(sources, 0, Domain::Int), get(sources, 1, Domain::Int)), Domain::Int)),
        Opcode::IMax => Some((call2("max", get(sources, 0, Domain::Int), get(sources, 1, Domain::Int), width), Domain::Int)),
        Opcode::IMin => Some((call2("min", get(sources, 0, Domain::Int), get(sources, 1, Domain::Int), width), Domain::Int)),
        Opcode::UMax => Some((call2("max", get(sources, 0, Domain::Uint), get(sources, 1, Domain::Uint), width), Domain::Uint)),
        Opcode::UMin => Some((call2("min", get(sources, 0, Domain::Uint), get(sources, 1, Domain::Uint), width), Domain::Uint)),
        Opcode::IMad => Some((binary("+", binary("*", get(sources, 0, Domain::Int), get(sources, 1, Domain::Int)), get(sources, 2, Domain::Int)), Domain::Int)),
        Opcode::UMad => Some((binary("+", binary("*", get(sources, 0, Domain::Uint), get(sources, 1, Domain::Uint)), get(sources, 2, Domain::Uint)), Domain::Uint)),
        Opcode::Ishl => Some((binary("<<", get(sources, 0, Domain::Int), get(sources, 1, Domain::Uint)), Domain::Int)),
        Opcode::Ishr => Some((binary(">>", get(sources, 0, Domain::Int), get(sources, 1, Domain::Uint)), Domain::Int)),
        Opcode::Ushr => Some((binary(">>", get(sources, 0, Domain::Uint), get(sources, 1, Domain::Uint)), Domain::Uint)),
        Opcode::Ftoi => Some((call1(sized("int", width).as_str(), get(sources, 0, Domain::Float), width), Domain::Int)),
        Opcode::Ftou => Some((call1(sized("uint", width).as_str(), get(sources, 0, Domain::Float), width), Domain::Uint)),
        Opcode::Itof => Some((call1(sized("float", width).as_str(), get(sources, 0, Domain::Int), width), Domain::Float)),
        Opcode::Utof => Some((call1(sized("float", width).as_str(), get(sources, 0, Domain::Uint), width), Domain::Float)),
        _ => None,
    }
}

/// What an `and` or an `or` computes. Comparisons leave a mask, and the shader combines masks with the bitwise
/// operators. Where both sides really are conditions, the logical ones read better and mean the same. A mask anded
/// with a constant is that constant or nothing, which is the choice the shader was written with; anded with one, it
/// is the condition itself and nothing more.
pub open spec fn masked_value(and: bool, sources: Seq<(ExprModel, Domain)>) -> (ExprModel, Domain) {
    match chosen(sources) {
        Some((cond, bits)) if and => if all_one(bits) {
            (cond, Domain::Bool)
        } else {
            (
                choice_model(
                    cond,
                    ExprModel::Literal { bits, domain: Domain::Float },
                    ExprModel::Literal { bits: splat(0, bits.len()), domain: Domain::Float },
                ),
                Domain::Float,
            )
        },
        _ => if all_bool(sources) {
            (
                binary_model(
                    if and {
                        "&&"@
                    } else {
                        "||"@
                    },
                    got(sources, 0, Domain::Bool),
                    got(sources, 1, Domain::Bool),
                ),
                Domain::Bool,
            )
        } else {
            (
                binary_model(
                    if and {
                        "&"@
                    } else {
                        "|"@
                    },
                    got(sources, 0, Domain::Uint),
                    got(sources, 1, Domain::Uint),
                ),
                Domain::Uint,
            )
        },
    }
}

fn masked(and: bool, sources: &Vec<(Expr, Domain)>) -> (r: (Expr, Domain))
    ensures
        (r.0@, r.1) == masked_value(and, source_models(sources@)),
{
    if and {
        if let Some((cond, bits)) = choose_constant(sources) {
            if are_one(&bits) {
                return (cond, Domain::Bool);
            }
            let count: usize = bits.len();
            return (
                choice(cond, constant(bits, Domain::Float), constant(splatted(0, count), Domain::Float)),
                Domain::Float,
            );
        }
    }
    if are_bool(sources) {
        let op = if and {
            "&&"
        } else {
            "||"
        };
        return (binary(op, get(sources, 0, Domain::Bool), get(sources, 1, Domain::Bool)), Domain::Bool);
    }
    let op = if and {
        "&"
    } else {
        "|"
    };
    (binary(op, get(sources, 0, Domain::Uint), get(sources, 1, Domain::Uint)), Domain::Uint)
}

/// What an instruction computes, one entry per destination, and the function it needs that HLSL does not provide.
pub struct EvalModel {
    pub values: Seq<Option<(ExprModel, Domain)>>,
    pub helper: Option<Seq<char>>,
}

/// What an instruction computes.
pub struct Eval {
    pub values: Vec<Option<(Expr, Domain)>>,
    pub helper: Option<String>,
}

impl Eval {
    /// What the evaluation holds.
    pub open spec fn view(&self) -> EvalModel {
        EvalModel {
            values: value_models(self.values@),
            helper: match self.helper {
                Some(text) => Some(text@),
                None => None,
            },
        }
    }
}

/// One value and no function.
pub open spec fn one_value(e: ExprModel, d: Domain) -> EvalModel {
    EvalModel { values: seq![Some((e, d))], helper: None }
}

/// Two values and no function.
pub open spec fn two_values(a: (ExprModel, Domain), b: (ExprModel, Domain)) -> EvalModel {
    EvalModel { values: seq![Some(a), Some(b)], helper: None }
}

pub(crate) fn single(e: Expr, d: Domain) -> (r: Eval)
    ensures
        r@ == one_value(e@, d),
{
    let ghost m = e@;
    let mut values: Vec<Option<(Expr, Domain)>> = Vec::new();
    values.push(Some((e, d)));
    proof {
        assert(value_models(values@) =~= seq![Some((m, d))]);
    }
    Eval { values, helper: None }
}

fn pair(a: Option<(Expr, Domain)>, b: Option<(Expr, Domain)>) -> (r: Eval)
    ensures
        r@ == (EvalModel { values: seq![value_model(a), value_model(b)], helper: None }),
{
    let ghost x = value_model(a);
    let ghost y = value_model(b);
    let mut values: Vec<Option<(Expr, Domain)>> = Vec::new();
    values.push(a);
    values.push(b);
    proof {
        assert(value_models(values@) =~= seq![x, y]);
    }
    Eval { values, helper: None }
}

pub(crate) fn nothing() -> (r: Eval)
    ensures
        r@ == (EvalModel { values: Seq::empty(), helper: None }),
{
    let values: Vec<Option<(Expr, Domain)>> = Vec::new();
    proof {
        assert(value_models(values@) =~= Seq::empty());
    }
    Eval { values, helper: None }
}

/// As many lanes, counted from the first.
pub open spec fn first_lanes_of(count: nat) -> Seq<u8> {
    Seq::new(count, |i: int| i as u8)
}

pub(crate) fn counted_lanes(count: u8) -> (r: Vec<u8>)
    ensures
        r@ == first_lanes_of(count as nat),
{
    let mut out: Vec<u8> = Vec::new();
    let mut i: u8 = 0;
    while i < count
        invariant
            i <= count,
            out@.len() == i,
            forall|k: int| 0 <= k < i ==> #[trigger] out@[k] == k as u8,
        decreases count - i,
    {
        out.push(i);
        i = i + 1;
    }
    proof {
        assert(out@ =~= first_lanes_of(count as nat));
    }
    out
}

/// A dot product over the first lanes of two sources.
pub open spec fn dot_value(sources: Seq<(ExprModel, Domain)>, take: nat) -> ExprModel {
    call_model(
        "dot"@,
        seq![
            selected(got(sources, 0, Domain::Float), first_lanes_of(take)),
            selected(got(sources, 1, Domain::Float), first_lanes_of(take)),
        ],
        1,
    )
}

fn dot(sources: &Vec<(Expr, Domain)>, take: u8) -> (r: Expr)
    ensures
        r@ == dot_value(source_models(sources@), take as nat),
{
    let lanes = counted_lanes(take);
    let a = get(sources, 0, Domain::Float).select(lanes.as_slice());
    let b = get(sources, 1, Domain::Float).select(lanes.as_slice());
    call2("dot", a, b, 1)
}

/// One source or another, by a condition that is a third.
pub open spec fn swapped(sources: Seq<(ExprModel, Domain)>, yes: int, els: int) -> ExprModel {
    choice_model(got(sources, 0, Domain::Bool), got(sources, yes, Domain::Float), got(sources, els, Domain::Float))
}

/// The domain that a choice is read in.
pub open spec fn chosen_domain(sources: Seq<(ExprModel, Domain)>) -> Domain {
    if sources.len() > 1 {
        sources[1].1
    } else {
        Domain::Float
    }
}

/// What a multiply with two halves computes, and the function it needs. The high half is only ever discarded in
/// practice, and is then left out.
pub open spec fn product_value(
    domain: Domain,
    sources: Seq<(ExprModel, Domain)>,
    discards: bool,
    width: usize,
) -> EvalModel {
    let a = got(sources, 0, domain);
    let b = got(sources, 1, domain);
    EvalModel {
        values: seq![
            if discards {
                None
            } else {
                Some((call_model("mul_high"@, seq![a, b], width), domain))
            },
            Some((binary_model("*"@, a, b), domain)),
        ],
        helper: if discards {
            None
        } else {
            Some(mul_high_text(width as nat))
        },
    }
}

/// What an instruction that reads no resource computes, given whether it discards its first destination.
///
/// Sources arrive already narrowed to the destination's components, so everything elementwise is just its operator.
/// The rest build a whole value and let the destination mask take from it.
pub open spec fn computed(opcode: Opcode, sources: Seq<(ExprModel, Domain)>, discards: bool, width: usize) -> EvalModel {
    match opcode {
        Opcode::Mov => if sources.len() > 0 {
            one_value(sources[0].0, sources[0].1)
        } else {
            EvalModel { values: Seq::empty(), helper: None }
        },
        Opcode::And => one_value(masked_value(true, sources).0, masked_value(true, sources).1),
        Opcode::Or => one_value(masked_value(false, sources).0, masked_value(false, sources).1),
        Opcode::Movc => one_value(
            choice_model(
                got(sources, 0, Domain::Bool),
                got(sources, 1, chosen_domain(sources)),
                got(sources, 2, chosen_domain(sources)),
            ),
            chosen_domain(sources),
        ),
        Opcode::Dp2 => one_value(dot_value(sources, 2), Domain::Float),
        Opcode::Dp3 => one_value(dot_value(sources, 3), Domain::Float),
        Opcode::Dp4 => one_value(dot_value(sources, 4), Domain::Float),
        // Both destinations come from the one angle, and either may be discarded.
        Opcode::Sincos => two_values(
            (call_model("sin"@, seq![got(sources, 0, Domain::Float)], width), Domain::Float),
            (call_model("cos"@, seq![got(sources, 0, Domain::Float)], width), Domain::Float),
        ),
        Opcode::IMul => product_value(Domain::Int, sources, discards, width),
        Opcode::UMul => product_value(Domain::Uint, sources, discards, width),
        Opcode::UDiv => two_values(
            (binary_model("/"@, got(sources, 0, Domain::Uint), got(sources, 1, Domain::Uint)), Domain::Uint),
            (binary_model("%"@, got(sources, 0, Domain::Uint), got(sources, 1, Domain::Uint)), Domain::Uint),
        ),
        // The condition picks which way round the two sources come out.
        Opcode::Swapc => two_values(
            (swapped(sources, 2, 1), Domain::Float),
            (swapped(sources, 1, 2), Domain::Float),
        ),
        Opcode::Ubfe => EvalModel {
            helper: Some(bitfield_extract_text(width as nat)),
            ..one_value(
                call_model(
                    "bitfield_extract"@,
                    seq![
                        got(sources, 2, Domain::Uint),
                        got(sources, 1, Domain::Uint),
                        got(sources, 0, Domain::Uint),
                    ],
                    width,
                ),
                Domain::Uint,
            )
        },
        Opcode::Ibfe => EvalModel {
            helper: Some(bitfield_extract_text(width as nat)),
            ..one_value(
                call_model(
                    "bitfield_extract"@,
                    seq![
                        got(sources, 2, Domain::Int),
                        got(sources, 1, Domain::Uint),
                        got(sources, 0, Domain::Uint),
                    ],
                    width,
                ),
                Domain::Int,
            )
        },
        Opcode::Bfi => EvalModel {
            helper: Some(bitfield_insert_text(width as nat)),
            ..one_value(
                call_model(
                    "bitfield_insert"@,
                    seq![
                        got(sources, 3, Domain::Uint),
                        got(sources, 2, Domain::Uint),
                        got(sources, 1, Domain::Uint),
                        got(sources, 0, Domain::Uint),
                    ],
                    width,
                ),
                Domain::Uint,
            )
        },
        _ => match plain_value(opcode, sources, width) {
            Some((e, d)) => one_value(e, d),
            None => EvalModel { values: Seq::empty(), helper: None },
        },
    }
}

fn multiplied(domain: Domain, sources: &Vec<(Expr, Domain)>, discards: bool, width: usize) -> (r: Eval)
    ensures
        r@ == product_value(domain, source_models(sources@), discards, width),
{
    let low = binary("*", get(sources, 0, domain), get(sources, 1, domain));
    if discards {
        return pair(None, Some((low, domain)));
    }
    let high = call2("mul_high", get(sources, 0, domain), get(sources, 1, domain), width);
    let mut r = pair(Some((high, domain)), Some((low, domain)));
    r.helper = Some(mul_high(width));
    r
}

/// What an instruction that reads no resource computes.
pub fn compute(opcode: Opcode, sources: &Vec<(Expr, Domain)>, discards: bool, width: usize) -> (r: Eval)
    ensures
        r@ == computed(opcode, source_models(sources@), discards, width),
{
    match opcode {
        Opcode::Mov => {
            if sources.len() > 0 {
                single(sources[0].0.duplicate(), sources[0].1)
            } else {
                nothing()
            }
        },
        Opcode::And => {
            let (e, d) = masked(true, sources);
            single(e, d)
        },
        Opcode::Or => {
            let (e, d) = masked(false, sources);
            single(e, d)
        },
        Opcode::Movc => {
            let domain = if sources.len() > 1 {
                sources[1].1
            } else {
                Domain::Float
            };
            single(
                choice(get(sources, 0, Domain::Bool), get(sources, 1, domain), get(sources, 2, domain)),
                domain,
            )
        },
        Opcode::Dp2 => single(dot(sources, 2), Domain::Float),
        Opcode::Dp3 => single(dot(sources, 3), Domain::Float),
        Opcode::Dp4 => single(dot(sources, 4), Domain::Float),
        Opcode::Sincos => pair(
            Some((call1("sin", get(sources, 0, Domain::Float), width), Domain::Float)),
            Some((call1("cos", get(sources, 0, Domain::Float), width), Domain::Float)),
        ),
        Opcode::IMul => multiplied(Domain::Int, sources, discards, width),
        Opcode::UMul => multiplied(Domain::Uint, sources, discards, width),
        Opcode::UDiv => pair(
            Some((binary("/", get(sources, 0, Domain::Uint), get(sources, 1, Domain::Uint)), Domain::Uint)),
            Some((binary("%", get(sources, 0, Domain::Uint), get(sources, 1, Domain::Uint)), Domain::Uint)),
        ),
        Opcode::Swapc => {
            let first = choice(
                get(sources, 0, Domain::Bool),
                get(sources, 2, Domain::Float),
                get(sources, 1, Domain::Float),
            );
            let second = choice(
                get(sources, 0, Domain::Bool),
                get(sources, 1, Domain::Float),
                get(sources, 2, Domain::Float),
            );
            pair(Some((first, Domain::Float)), Some((second, Domain::Float)))
        },
        Opcode::Ubfe => {
            let e = call3(
                "bitfield_extract",
                get(sources, 2, Domain::Uint),
                get(sources, 1, Domain::Uint),
                get(sources, 0, Domain::Uint),
                width,
            );
            let mut r = single(e, Domain::Uint);
            r.helper = Some(bitfield_extract(width));
            r
        },
        Opcode::Ibfe => {
            let e = call3(
                "bitfield_extract",
                get(sources, 2, Domain::Int),
                get(sources, 1, Domain::Uint),
                get(sources, 0, Domain::Uint),
                width,
            );
            let mut r = single(e, Domain::Int);
            r.helper = Some(bitfield_extract(width));
            r
        },
        Opcode::Bfi => {
            let mut args: Vec<Expr> = Vec::new();
            args.push(get(sources, 3, Domain::Uint));
            args.push(get(sources, 2, Domain::Uint));
            args.push(get(sources, 1, Domain::Uint));
            args.push(get(sources, 0, Domain::Uint));
            proof {
                let all = source_models(sources@);
                assert(models(args@) =~= seq![
                    got(all, 3, Domain::Uint),
                    got(all, 2, Domain::Uint),
                    got(all, 1, Domain::Uint),
                    got(all, 0, Domain::Uint),
                ]);
            }
            let mut r = single(call("bitfield_insert", args, width), Domain::Uint);
            r.helper = Some(bitfield_insert(width));
            r
        },
        _ => match plain(opcode, sources, width) {
            Some((e, d)) => single(e, d),
            None => nothing(),
        },
    }
}

} // verus!
