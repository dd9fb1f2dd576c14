//! What a shader binds, as the HLSL that would declare it.
use super::body::{lists, push_text};
use super::fetch::{declared_slot, slot_declared};
use super::matrix::texts;
use super::names::{by_key, lookup, sampler_text, settled, texture_text, unkeyed, Buffer, BufferModel, Names};
use super::words::{find_last, last_of};
use crate::float::{debug32, debug_single};
use crate::shex::ir::{
    instruction_models, operand_models, IndexModel, Instruction, InstructionKind, InstructionModel, KindModel, Operand,
    OperandIndex, OperandModel, RegisterType, ReturnType,
};
use crate::text::{cat2, cat3, cat4, cat5, cat6, cat7, chars_of, dec, decimal, from_span, same};
use vstd::prelude::*;

verus! {

/// The HLSL type a resource returns, as its declaration writes it.
pub open spec fn return_text(types: [ReturnType; 4]) -> Seq<char> {
    match types@[0] {
        ReturnType::Sint => "int4"@,
        ReturnType::Uint => "uint4"@,
        ReturnType::Double => "double4"@,
        _ => "float4"@,
    }
}

fn return_kind(types: &[ReturnType; 4]) -> (r: &'static str)
    ensures
        r@ == return_text(*types),
{
    match types[0] {
        ReturnType::Sint => "int4",
        ReturnType::Uint => "uint4",
        ReturnType::Double => "double4",
        _ => "float4",
    }
}

/// The HLSL object type a resource dimension names.
pub open spec fn object_text(dimension: Seq<char>) -> Seq<char> {
    if dimension == "buffer"@ {
        "Buffer"@
    } else if dimension == "texture1d"@ {
        "Texture1D"@
    } else if dimension == "texture1darray"@ {
        "Texture1DArray"@
    } else if dimension == "texture2darray"@ {
        "Texture2DArray"@
    } else if dimension == "texture2dms"@ {
        "Texture2DMS"@
    } else if dimension == "texture2dmsarray"@ {
        "Texture2DMSArray"@
    } else if dimension == "texture3d"@ {
        "Texture3D"@
    } else if dimension == "texturecube"@ {
        "TextureCube"@
    } else if dimension == "texturecubearray"@ {
        "TextureCubeArray"@
    } else {
        "Texture2D"@
    }
}

/// The HLSL object type a resource dimension names.
pub fn object(dimension: &str) -> (r: &'static str)
    ensures
        r@ == object_text(dimension@),
{
    if same(dimension, "buffer") {
        "Buffer"
    } else if same(dimension, "texture1d") {
        "Texture1D"
    } else if same(dimension, "texture1darray") {
        "Texture1DArray"
    } else if same(dimension, "texture2darray") {
        "Texture2DArray"
    } else if same(dimension, "texture2dms") {
        "Texture2DMS"
    } else if same(dimension, "texture2dmsarray") {
        "Texture2DMSArray"
    } else if same(dimension, "texture3d") {
        "Texture3D"
    } else if same(dimension, "texturecube") {
        "TextureCube"
    } else if same(dimension, "texturecubearray") {
        "TextureCubeArray"
    } else {
        "Texture2D"
    }
}

/// The registers a constant buffer declares, which is its second index. One at the least.
pub open spec fn register_count(i: InstructionModel) -> u32 {
    let operands = i.kind.operands();
    if operands.len() > 0 && operands[0].indices.len() > 1 {
        match operands[0].indices[1] {
            IndexModel::Imm32(value) => if value > 1 {
                value
            } else {
                1
            },
            _ => 1,
        }
    } else {
        1
    }
}

fn extent(i: &Instruction) -> (r: u32)
    ensures
        r == register_count(i@),
        r >= 1,
{
    let operands = i.operands();
    proof {
        assert(operand_models(operands@).len() == operands@.len());
    }
    if operands.len() > 0 {
        proof {
            assert(operand_models(operands@)[0] == operands@[0]@);
            assert(operands@[0]@.indices.len() == operands@[0].indices@.len());
        }
        if operands[0].indices.len() > 1 {
            proof {
                assert(operands@[0]@.indices[1] == operands@[0].indices@[1]@);
            }
            if let OperandIndex::Imm32(value) = &operands[0].indices[1] {
                if *value > 1 {
                    return *value;
                }
            }
        }
    }
    1
}

/// The constant buffer slot an operand indexes with a computed register, where it does.
pub open spec fn computed_by(operand: OperandModel) -> Option<u16> {
    if operand.reg_type == RegisterType::ConstantBuffer && operand.indices.len() > 1 && !(operand.indices[1] is Imm32) {
        match operand.indices[0] {
            IndexModel::Imm32(slot) => Some(slot as u16),
            _ => None,
        }
    } else {
        None
    }
}

/// A list of slots with the one the operand adds.
pub open spec fn with_computed(slots: Seq<u16>, operand: OperandModel) -> Seq<u16> {
    match computed_by(operand) {
        Some(slot) if !slots.contains(slot) => slots.push(slot),
        _ => slots,
    }
}

/// A list of slots with those that the first operands of a list add.
pub open spec fn computed_among(slots: Seq<u16>, operands: Seq<OperandModel>, n: int) -> Seq<u16>
    decreases n,
{
    if n <= 0 {
        slots
    } else {
        with_computed(computed_among(slots, operands, n - 1), operands[n - 1])
    }
}

/// Constant buffer slots the first instructions index with a computed register.
///
/// Those cannot be a struct of named fields, because nothing names a field a shader picks at run time, so they are
/// declared as the array of registers they really are.
pub open spec fn computed_in(instructions: Seq<InstructionModel>, n: int) -> Seq<u16>
    decreases n,
{
    if n <= 0 {
        Seq::empty()
    } else {
        let operands = instructions[n - 1].kind.operands();
        computed_among(computed_in(instructions, n - 1), operands, operands.len() as int)
    }
}

fn slot_computed(operand: &Operand) -> (r: Option<u16>)
    ensures
        r == computed_by(operand@),
{
    proof {
        assert(operand@.indices.len() == operand.indices@.len());
    }
    if operand.reg_type != RegisterType::ConstantBuffer || operand.indices.len() < 2 {
        return None;
    }
    proof {
        assert(operand@.indices[0] == operand.indices@[0]@);
        assert(operand@.indices[1] == operand.indices@[1]@);
    }
    if let OperandIndex::Imm32(_) = &operand.indices[1] {
        return None;
    }
    match &operand.indices[0] {
        OperandIndex::Imm32(slot) => Some(*slot as u16),
        _ => None,
    }
}

/// Constant buffer slots a shader indexes with a computed register.
pub fn computed(instructions: &Vec<Instruction>) -> (r: Vec<u16>)
    ensures
        r@ == computed_in(instruction_models(instructions@), instructions@.len() as int),
{
    let ghost all = instruction_models(instructions@);
    let mut slots: Vec<u16> = Vec::new();
    let mut i: usize = 0;
    proof {
        assert(slots@ =~= computed_in(all, 0));
    }
    while i < instructions.len()
        invariant
            i <= instructions@.len(),
            all == instruction_models(instructions@),
            slots@ == computed_in(all, i as int),
        decreases instructions@.len() - i,
    {
        assert(all[i as int] == instructions@[i as int]@);
        let operands = instructions[i].operands();
        let ghost held = all[i as int].kind.operands();
        let ghost before = slots@;
        let mut j: usize = 0;
        while j < operands.len()
            invariant
                j <= operands@.len(),
                held == operand_models(operands@),
                slots@ == computed_among(before, held, j as int),
            decreases operands@.len() - j,
        {
            assert(held[j as int] == operands@[j as int]@);
            if let Some(slot) = slot_computed(&operands[j]) {
                if !lists(&slots, slot) {
                    slots.push(slot);
                }
            }
            j = j + 1;
        }
        proof {
            assert(held.len() == operands@.len());
        }
        i = i + 1;
    }
    slots
}

/// The text behind the last point of a name.
pub open spec fn behind_point(s: Seq<char>) -> Seq<char> {
    match last_of(s, '.', s.len() as int) {
        Some(at) => s.subrange(at + 1, s.len() as int),
        None => s,
    }
}

proof fn lemma_last_of(s: Seq<char>, c: char, until: int)
    requires
        0 <= until <= s.len(),
    ensures
        match last_of(s, c, until) {
            Some(at) => 0 <= at < until,
            None => true,
        },
    decreases until,
{
    if until > 0 {
        lemma_last_of(s, c, until - 1);
    }
}

fn last_part(s: &str) -> (r: String)
    ensures
        r@ == behind_point(s@),
{
    let chars = chars_of(s);
    proof {
        lemma_last_of(s@, '.', s@.len() as int);
    }
    let count: usize = chars.len();
    match find_last(chars.as_slice(), '.') {
        Some(at) => from_span(chars.as_slice(), at + 1, count),
        None => s.to_owned(),
    }
}

/// How many elements a buffer holds. An array of structs describes one element, so there is one of them per element.
pub open spec fn element_count(b: BufferModel, registers: u32, array: bool) -> nat {
    let one = if b.span() > 1 {
        b.span()
    } else {
        1
    };
    if array && registers as nat / one > 1 {
        registers as nat / one
    } else {
        1
    }
}

/// The declarations of the members, with what they are ordered by.
pub open spec fn keyed_declarations(b: BufferModel) -> Seq<(nat, Seq<char>)> {
    Seq::new(b.members.len(), |i: int| (b.members[i].register * 4 + b.members[i].first, b.members[i].declaration()))
}

/// The declaration of a register no member covers.
pub open spec fn gap_declaration(b: BufferModel, register: nat) -> Seq<char> {
    "    float4 "@ + behind_point(b.gap(register)) + ";"@
}

/// The declarations of the registers from one to another, with what they are ordered by.
pub open spec fn keyed_gaps(b: BufferModel, from: nat, to: nat) -> Seq<(nat, Seq<char>)> {
    Seq::new(
        if to > from {
            (to - from) as nat
        } else {
            0
        },
        |i: int| (((from + i) * 4) as nat, gap_declaration(b, (from + i) as nat)),
    )
}

/// The lines inside a buffer's declaration, in the order of the registers. The body can read past everything the fields
/// describe, and a register it reads still has to have something declared at it.
pub open spec fn inner_lines(b: BufferModel, room: nat) -> Seq<Seq<char>> {
    let all = keyed_declarations(b) + keyed_gaps(b, b.span(), room);
    unkeyed(by_key(all, all.len() as int))
}

/// The declaration of a buffer's register array.
pub open spec fn array_lines(name: Seq<char>, at: u32, registers: u32) -> Seq<Seq<char>> {
    seq![
        "cbuffer cb"@ + dec(at as nat) + " : register(b"@ + dec(at as nat) + ")"@,
        "{"@,
        // One register is not an array of anything.
        if registers == 1 {
            "    float4 "@ + name + ";"@
        } else {
            "    float4 "@ + name + "["@ + dec(registers as nat) + "];"@
        },
        "};"@,
    ]
}

/// How many elements a comment says a buffer has.
pub open spec fn count_text(count: nat) -> Seq<char> {
    if count == 1 {
        "1 element"@
    } else {
        dec(count) + " elements"@
    }
}

/// What each register of an element holds, for a buffer that is declared as registers though its fields are known. It is
/// the only way back from an index like `i * 6 + 5`.
pub open spec fn placement_lines(b: BufferModel, registers: u32) -> Seq<Seq<char>> {
    let stride = b.span();
    if stride > 0 && registers > stride && registers as nat % stride == 0 {
        seq![
            "// "@ + count_text(registers as nat / stride) + " of "@ + dec(stride)
                + " registers each, indexed as `element * "@ + dec(stride) + " + register`:"@,
        ] + Seq::new(b.members.len(), |i: int| b.members[i].placed())
    } else {
        Seq::empty()
    }
}

/// The declaration of a buffer as the struct the shader declared it with.
///
/// One member named after the buffer needs no struct around it, which is how a hand-written header has these. Anything
/// with more than that keeps the struct, so a field name cannot collide with another buffer's at the outer scope.
pub open spec fn struct_lines(b: BufferModel, at: u32, registers: u32, array: bool) -> Seq<Seq<char>> {
    let count = element_count(b, registers, array);
    let inner = inner_lines(b, registers as nat / count);
    let number = dec(at as nat);
    if b.alone() {
        seq!["cbuffer "@ + b.name + " : register(b"@ + number + ")"@, "{"@] + inner + seq!["};"@]
    } else {
        seq!["struct "@ + b.name + "_t"@, "{"@] + inner + seq![
            "};"@,
            "cbuffer cb"@ + number + " : register(b"@ + number + ")"@,
            "{"@,
            "    "@ + b.name + "_t "@ + b.name + (if count == 1 {
                ""@
            } else {
                "["@ + dec(count) + "]"@
            }) + ";"@,
            "};"@,
        ]
    }
}

/// One constant buffer, as the struct the shader declared it with.
///
/// A buffer picked apart by element is declared as the array of structs it is, even though the element is only known at
/// run time. One whose register is picked at run time any other way is an array of registers, since a computed register
/// cannot reach a field by name.
pub open spec fn buffer_lines(
    names: Names,
    computed: Seq<u16>,
    arrays: Seq<u16>,
    at: u32,
    registers: u32,
) -> Seq<Seq<char>> {
    let slot = at as u16;
    match lookup(names.constants@, slot as u32, 0) {
        None => array_lines("cb"@ + dec(at as nat), at, registers),
        Some(held) => if held@.members.len() == 0 {
            array_lines(held@.name, at, registers)
        } else if computed.contains(slot) && !arrays.contains(slot) {
            placement_lines(held@, registers) + array_lines(held@.name, at, registers)
        } else {
            struct_lines(held@, at, registers, arrays.contains(slot))
        },
    }
}

/// What each keyed text of a list holds.
pub open spec fn keyed_texts(list: Seq<(u128, String)>) -> Seq<(nat, Seq<char>)> {
    Seq::new(list.len(), |i: int| (list[i].0 as nat, list[i].1@))
}

fn settle_text(list: &mut Vec<(u128, String)>, key: u128, text: String)
    ensures
        keyed_texts(final(list)@) == settled(keyed_texts(old(list)@), key as nat, text@, 0),
{
    let ghost before = keyed_texts(list@);
    let mut at: usize = 0;
    while at < list.len() && list[at].0 <= key
        invariant
            at <= list@.len(),
            list@ == old(list)@,
            before == keyed_texts(list@),
            settled(before, key as nat, text@, 0) == settled(before, key as nat, text@, at as int),
        decreases list@.len() - at,
    {
        assert(before[at as int].0 == list@[at as int].0);
        at = at + 1;
    }
    proof {
        if at < list@.len() {
            assert(before[at as int].0 == list@[at as int].0);
        }
    }
    let ghost m = text@;
    list.insert(at, (key, text));
    proof {
        assert(keyed_texts(list@) =~= before.insert(at as int, (key as nat, m)));
    }
}

fn push_array(out: &mut Vec<String>, name: &str, at: u32, registers: u32)
    ensures
        texts(final(out)@) == texts(old(out)@) + array_lines(name@, at, registers),
{
    let ghost before = texts(out@);
    let d = decimal(at as u64);
    push_text(out, cat5("cbuffer cb", d.as_str(), " : register(b", d.as_str(), ")"));
    push_text(out, "{".to_owned());
    if registers == 1 {
        push_text(out, cat3("    float4 ", name, ";"));
    } else {
        let count = decimal(registers as u64);
        push_text(out, cat5("    float4 ", name, "[", count.as_str(), "];"));
    }
    push_text(out, "};".to_owned());
    proof {
        assert(texts(out@) =~= before + array_lines(name@, at, registers));
    }
}

fn push_placements(out: &mut Vec<String>, held: &Buffer, registers: u32)
    ensures
        texts(final(out)@) == texts(old(out)@) + placement_lines(held@, registers),
{
    let ghost before = texts(out@);
    let stride = held.span();
    if stride > 0 && registers as u64 > stride && registers as u64 % stride == 0 {
        let count: u64 = registers as u64 / stride;
        let said = if count == 1 {
            "1 element".to_owned()
        } else {
            let d = decimal(count);
            cat2(d.as_str(), " elements")
        };
        let s = decimal(stride);
        push_text(
            out,
            cat7(
                "// ",
                said.as_str(),
                " of ",
                s.as_str(),
                " registers each, indexed as `element * ",
                s.as_str(),
                " + register`:",
            ),
        );
        let ghost lead = texts(out@);
        let places = held.placements();
        let ghost want = Seq::new(held@.members.len(), |i: int| held@.members[i].placed());
        let mut i: usize = 0;
        proof {
            assert(lead + want.take(0) =~= lead);
        }
        while i < places.len()
            invariant
                i <= places@.len(),
                places@.len() == want.len(),
                forall|k: int| 0 <= k < places@.len() ==> (#[trigger] places@[k])@ == want[k],
                texts(out@) == lead + want.take(i as int),
            decreases places@.len() - i,
        {
            push_text(out, places[i].clone());
            proof {
                assert(lead + want.take(i + 1) =~= (lead + want.take(i as int)).push(want[i as int]));
            }
            i = i + 1;
        }
        proof {
            assert(want.take(i as int) =~= want);
            assert(texts(out@) =~= before + placement_lines(held@, registers));
        }
    } else {
        proof {
            assert(texts(out@) =~= before + placement_lines(held@, registers));
        }
    }
}

/// The lines inside a buffer's declaration.
fn inner(held: &Buffer, room: u64) -> (r: Vec<String>)
    ensures
        texts(r@) == inner_lines(held@, room as nat),
{
    let ghost b = held@;
    let ghost all = keyed_declarations(b) + keyed_gaps(b, b.span(), room as nat);
    let declared = held.declarations();
    let count: usize = declared.len();
    let mut list: Vec<(u128, String)> = Vec::new();
    let mut i: usize = 0;
    proof {
        assert(keyed_texts(list@) =~= by_key(all, 0));
    }
    while i < count
        invariant
            i <= count,
            count == declared@.len(),
            b == held@,
            declared@.len() == b.members.len(),
            forall|k: int| 0 <= k < declared@.len() ==> (#[trigger] declared@[k])@ == b.members[k].declaration(),
            all == keyed_declarations(b) + keyed_gaps(b, b.span(), room as nat),
            keyed_texts(list@) == by_key(all, i as int),
        decreases count - i,
    {
        let (register, first) = held.seat(i);
        let key: u128 = register as u128 * 4 + first as u128;
        assert(all[i as int] == keyed_declarations(b)[i as int]);
        assert(declared@[i as int]@ == b.members[i as int].declaration());
        settle_text(&mut list, key, declared[i].clone());
        i = i + 1;
    }
    let span = held.span();
    let mut register: u64 = span;
    while register < room
        invariant
            b == held@,
            span == b.span(),
            span <= register,
            register <= room || register == span,
            count == b.members.len(),
            all == keyed_declarations(b) + keyed_gaps(b, b.span(), room as nat),
            keyed_texts(list@) == by_key(all, count + (register - span)),
        decreases room - register,
    {
        let name = held.gap(register);
        let last = last_part(name.as_str());
        let text = cat3("    float4 ", last.as_str(), ";");
        let ghost at = count + (register - span);
        assert(all[at] == keyed_gaps(b, b.span(), room as nat)[register - span]);
        settle_text(&mut list, register as u128 * 4, text);
        register = register + 1;
    }
    proof {
        assert(all.len() == count + (register - span));
    }
    let ghost done = by_key(all, all.len() as int);
    let mut out: Vec<String> = Vec::new();
    let mut i: usize = 0;
    while i < list.len()
        invariant
            i <= list@.len(),
            done == keyed_texts(list@),
            out@.len() == i,
            forall|k: int| 0 <= k < i ==> (#[trigger] out@[k])@ == done[k].1,
        decreases list@.len() - i,
    {
        assert(done[i as int].1 == list@[i as int].1@);
        out.push(list[i].1.clone());
        i = i + 1;
    }
    proof {
        assert(texts(out@) =~= unkeyed(done));
    }
    out
}

fn push_all(out: &mut Vec<String>, more: Vec<String>)
    ensures
        texts(final(out)@) == texts(old(out)@) + texts(more@),
{
    let ghost a = texts(out@);
    let ghost b = texts(more@);
    let ghost both = out@ + more@;
    let mut more = more;
    out.append(&mut more);
    proof {
        assert(out@ =~= both);
        assert(texts(out@) =~= a + b);
    }
}

fn push_struct(out: &mut Vec<String>, held: &Buffer, at: u32, registers: u32, array: bool)
    ensures
        texts(final(out)@) == texts(old(out)@) + struct_lines(held@, at, registers, array),
{
    let ghost before = texts(out@);
    let span = held.span();
    let one: u64 = if span > 1 {
        span
    } else {
        1
    };
    let count: u64 = if array && registers as u64 / one > 1 {
        registers as u64 / one
    } else {
        1
    };
    let lines = inner(held, registers as u64 / count);
    let ghost inside = texts(lines@);
    let d = decimal(at as u64);
    let name = held.title();
    if held.alone() {
        push_text(out, cat5("cbuffer ", name, " : register(b", d.as_str(), ")"));
        push_text(out, "{".to_owned());
        push_all(out, lines);
        push_text(out, "};".to_owned());
        proof {
            assert(texts(out@) =~= before + struct_lines(held@, at, registers, array));
        }
        return;
    }
    push_text(out, cat3("struct ", name, "_t"));
    push_text(out, "{".to_owned());
    push_all(out, lines);
    push_text(out, "};".to_owned());
    push_text(out, cat5("cbuffer cb", d.as_str(), " : register(b", d.as_str(), ")"));
    push_text(out, "{".to_owned());
    let many = if count == 1 {
        "".to_owned()
    } else {
        let c = decimal(count);
        cat3("[", c.as_str(), "]")
    };
    push_text(out, cat6("    ", name, "_t ", name, many.as_str(), ";"));
    push_text(out, "};".to_owned());
    proof {
        assert(texts(out@) =~= before + struct_lines(held@, at, registers, array));
    }
}

/// Declare one constant buffer.
pub fn buffer(names: &Names, computed: &Vec<u16>, arrays: &Vec<u16>, at: u32, registers: u32, out: &mut Vec<String>)
    ensures
        texts(final(out)@) == texts(old(out)@) + buffer_lines(*names, computed@, arrays@, at, registers),
{
    let ghost before = texts(out@);
    let slot = at as u16;
    match names.constants.get(slot as u32) {
        None => {
            let d = decimal(at as u64);
            let name = cat2("cb", d.as_str());
            push_array(out, name.as_str(), at, registers);
        },
        Some(held) => {
            if held.bare() {
                push_array(out, held.title(), at, registers);
            } else if lists(computed, slot) && !lists(arrays, slot) {
                push_placements(out, held, registers);
                push_array(out, held.title(), at, registers);
                proof {
                    assert(texts(out@) =~= before + buffer_lines(*names, computed@, arrays@, at, registers));
                }
            } else {
                push_struct(out, held, at, registers, lists(arrays, slot));
            }
        },
    }
}

/// What an instruction declares, as lines.
pub open spec fn declared(names: Names, computed: Seq<u16>, arrays: Seq<u16>, i: InstructionModel) -> Seq<Seq<char>> {
    match declared_slot(i) {
        None => Seq::empty(),
        Some(at) => {
            let texture = texture_text(names, at as u16);
            let number = dec(at as nat);
            match i.kind {
                KindModel::DclConstantBuffer { .. } => buffer_lines(names, computed, arrays, at, register_count(i)),
                KindModel::DclResource { dimension, return_type, .. } => seq![
                    object_text(dimension) + "<"@ + return_text(return_type) + "> "@ + texture + " : register(t"@ + number
                        + ");"@,
                ],
                // A structured or raw load reads dwords at a byte offset, which is what this buffer does and what a
                // typed one could not.
                KindModel::DclResourceStructured { stride, .. } => seq![
                    "ByteAddressBuffer "@ + texture + " : register(t"@ + number + ");   // "@ + dec(stride as nat)
                        + "-byte stride"@,
                ],
                KindModel::DclResourceRaw { .. } => seq![
                    "ByteAddressBuffer "@ + texture + " : register(t"@ + number + ");"@,
                ],
                KindModel::DclSampler { mode, .. } => seq![
                    (if mode == "comparison"@ {
                        "SamplerComparisonState"@
                    } else {
                        "SamplerState"@
                    }) + " "@ + sampler_text(names, at as u16) + " : register(s"@ + number + ");"@,
                ],
                _ => Seq::empty(),
            }
        },
    }
}

/// What the first instructions declare, as lines.
pub open spec fn all_declared(
    names: Names,
    computed: Seq<u16>,
    arrays: Seq<u16>,
    instructions: Seq<InstructionModel>,
    n: int,
) -> Seq<Seq<char>>
    decreases n,
{
    if n <= 0 {
        Seq::empty()
    } else {
        all_declared(names, computed, arrays, instructions, n - 1) + declared(names, computed, arrays, instructions[n - 1])
    }
}

/// The first table of constants that holds any, from an instruction on.
pub open spec fn table_in(instructions: Seq<InstructionModel>, from: int) -> Option<Seq<[u32; 4]>>
    decreases instructions.len() - from,
{
    if from < 0 || from >= instructions.len() {
        None
    } else {
        match instructions[from].kind {
            KindModel::CustomData { values, .. } if values.len() > 0 => Some(values),
            _ => table_in(instructions, from + 1),
        }
    }
}

/// A row of a table of constants.
pub open spec fn row_line(row: [u32; 4]) -> Seq<char> {
    "    float4("@ + debug32(row@[0]) + ", "@ + debug32(row@[1]) + ", "@ + debug32(row@[2]) + ", "@ + debug32(row@[3])
        + "),"@
}

/// The declaration of a table of constants.
pub open spec fn table_lines(values: Seq<[u32; 4]>) -> Seq<Seq<char>> {
    seq![Seq::<char>::empty(), "static const float4 icb["@ + dec(values.len()) + "] ="@, "{"@] + Seq::new(
        values.len(),
        |i: int| row_line(values[i]),
    ) + seq!["};"@]
}

/// The functions a body needs, set off by a blank line where there are any.
pub open spec fn helper_lines(helpers: Seq<Seq<char>>) -> Seq<Seq<char>> {
    if helpers.len() == 0 {
        Seq::empty()
    } else {
        seq![Seq::<char>::empty()] + helpers
    }
}

/// The resources a shader binds, as the HLSL that would declare them.
pub open spec fn preamble_lines(
    names: Names,
    computed: Seq<u16>,
    arrays: Seq<u16>,
    instructions: Seq<InstructionModel>,
    helpers: Seq<Seq<char>>,
) -> Seq<Seq<char>> {
    all_declared(names, computed, arrays, instructions, instructions.len() as int) + (match table_in(instructions, 0) {
        Some(values) => table_lines(values),
        None => Seq::empty(),
    }) + helper_lines(helpers)
}

fn push_declared(names: &Names, computed: &Vec<u16>, arrays: &Vec<u16>, i: &Instruction, out: &mut Vec<String>)
    ensures
        texts(final(out)@) == texts(old(out)@) + declared(*names, computed@, arrays@, i@),
{
    let ghost before = texts(out@);
    let ghost want = declared(*names, computed@, arrays@, i@);
    match slot_declared(i) {
        None => {},
        Some(at) => {
            let d = decimal(at as u64);
            match &i.kind {
                InstructionKind::DclConstantBuffer { .. } => {
                    buffer(names, computed, arrays, at, extent(i), out);
                    return;
                },
                InstructionKind::DclResource { dimension, return_type, .. } => {
                    let texture = names.texture(at as u16);
                    let head = cat5(object(dimension), "<", return_kind(return_type), "> ", texture.as_str());
                    push_text(out, cat4(head.as_str(), " : register(t", d.as_str(), ");"));
                },
                InstructionKind::DclResourceStructured { stride, .. } => {
                    let texture = names.texture(at as u16);
                    let s = decimal(*stride as u64);
                    push_text(
                        out,
                        cat7(
                            "ByteAddressBuffer ",
                            texture.as_str(),
                            " : register(t",
                            d.as_str(),
                            ");   // ",
                            s.as_str(),
                            "-byte stride",
                        ),
                    );
                },
                InstructionKind::DclResourceRaw { .. } => {
                    let texture = names.texture(at as u16);
                    push_text(out, cat5("ByteAddressBuffer ", texture.as_str(), " : register(t", d.as_str(), ");"));
                },
                InstructionKind::DclSampler { mode, .. } => {
                    let sampler = names.sampler(at as u16);
                    let kind = if same(mode, "comparison") {
                        "SamplerComparisonState"
                    } else {
                        "SamplerState"
                    };
                    push_text(out, cat6(kind, " ", sampler.as_str(), " : register(s", d.as_str(), ");"));
                },
                _ => {},
            }
        },
    }
    proof {
        assert(texts(out@) =~= before + want);
    }
}

fn push_table(values: &Vec<[u32; 4]>, out: &mut Vec<String>)
    ensures
        texts(final(out)@) == texts(old(out)@) + table_lines(values@),
{
    let ghost before = texts(out@);
    let ghost rows = Seq::new(values@.len(), |i: int| row_line(values@[i]));
    let blank = String::new();
    proof {
        assert(blank@ =~= Seq::<char>::empty());
    }
    push_text(out, blank);
    let d = decimal(values.len() as u64);
    push_text(out, cat3("static const float4 icb[", d.as_str(), "] ="));
    push_text(out, "{".to_owned());
    let ghost lead = texts(out@);
    let mut i: usize = 0;
    proof {
        assert(lead + rows.take(0) =~= lead);
    }
    while i < values.len()
        invariant
            i <= values@.len(),
            rows == Seq::new(values@.len(), |i: int| row_line(values@[i])),
            texts(out@) == lead + rows.take(i as int),
        decreases values@.len() - i,
    {
        let row = values[i];
        let a = debug_single(row[0]);
        let b = debug_single(row[1]);
        let c = debug_single(row[2]);
        let d = debug_single(row[3]);
        let head = cat5("    float4(", a.as_str(), ", ", b.as_str(), ", ");
        let text = cat5(head.as_str(), c.as_str(), ", ", d.as_str(), "),");
        proof {
            assert(text@ =~= row_line(values@[i as int]));
            assert(lead + rows.take(i + 1) =~= (lead + rows.take(i as int)).push(rows[i as int]));
        }
        push_text(out, text);
        i = i + 1;
    }
    push_text(out, "};".to_owned());
    proof {
        assert(rows.take(i as int) =~= rows);
        assert(texts(out@) =~= before + table_lines(values@));
    }
}

/// Declare the resources a shader binds.
pub fn preamble(
    instructions: &Vec<Instruction>,
    names: &Names,
    computed: &Vec<u16>,
    arrays: &Vec<u16>,
    helpers: &Vec<String>,
    out: &mut Vec<String>,
)
    ensures
        texts(final(out)@) == texts(old(out)@) + preamble_lines(
            *names,
            computed@,
            arrays@,
            instruction_models(instructions@),
            texts(helpers@),
        ),
{
    let ghost before = texts(out@);
    let ghost all = instruction_models(instructions@);
    let mut i: usize = 0;
    proof {
        assert(before + all_declared(*names, computed@, arrays@, all, 0) =~= before);
    }
    while i < instructions.len()
        invariant
            i <= instructions@.len(),
            all == instruction_models(instructions@),
            texts(out@) == before + all_declared(*names, computed@, arrays@, all, i as int),
        decreases instructions@.len() - i,
    {
        assert(all[i as int] == instructions@[i as int]@);
        push_declared(names, computed, arrays, &instructions[i], out);
        proof {
            assert(texts(out@) =~= before + all_declared(*names, computed@, arrays@, all, i + 1));
        }
        i = i + 1;
    }
    let ghost declared_all = texts(out@);
    let ghost table = match table_in(all, 0) {
        Some(values) => table_lines(values),
        None => Seq::empty(),
    };
    push_first_table(instructions, out);
    let ghost tabled = texts(out@);
    assert(tabled =~= declared_all + table);
    if helpers.len() > 0 {
        let blank = String::new();
        proof {
            assert(blank@ =~= Seq::<char>::empty());
        }
        push_text(out, blank);
        let ghost lead = texts(out@);
        let ghost held = texts(helpers@);
        let mut j: usize = 0;
        proof {
            assert(lead + held.take(0) =~= lead);
        }
        while j < helpers.len()
            invariant
                j <= helpers@.len(),
                held == texts(helpers@),
                texts(out@) == lead + held.take(j as int),
            decreases helpers@.len() - j,
        {
            push_text(out, helpers[j].clone());
            proof {
                assert(held[j as int] == helpers@[j as int]@);
                assert(lead + held.take(j + 1) =~= (lead + held.take(j as int)).push(held[j as int]));
            }
            j = j + 1;
        }
        proof {
            assert(held.take(j as int) =~= held);
            assert(texts(out@) =~= tabled + helper_lines(held));
        }
    } else {
        proof {
            assert(texts(out@) =~= tabled + helper_lines(texts(helpers@)));
        }
    }
    proof {
        assert(texts(out@) =~= before + preamble_lines(*names, computed@, arrays@, all, texts(helpers@)));
    }
}

fn push_first_table(instructions: &Vec<Instruction>, out: &mut Vec<String>)
    ensures
        texts(final(out)@) == texts(old(out)@) + (match table_in(instruction_models(instructions@), 0) {
            Some(values) => table_lines(values),
            None => Seq::empty(),
        }),
{
    let ghost before = texts(out@);
    let ghost all = instruction_models(instructions@);
    let mut i: usize = 0;
    while i < instructions.len()
        invariant
            i <= instructions@.len(),
            all == instruction_models(instructions@),
            before == texts(out@),
            before == texts(old(out)@),
            table_in(all, 0) == table_in(all, i as int),
        decreases instructions@.len() - i,
    {
        assert(all[i as int] == instructions@[i as int]@);
        if let InstructionKind::CustomData { values, .. } = &instructions[i].kind {
            if values.len() > 0 {
                push_table(values, out);
                return;
            }
        }
        i = i + 1;
    }
    proof {
        assert(texts(out@) =~= before + Seq::<Seq<char>>::empty());
    }
}

} // verus!
