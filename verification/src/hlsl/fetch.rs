//! Texture and buffer reads, which name their resource and sampler rather than their slots.
use super::expr::{
    binary, binary_model, call, call1, call_model, coerce, coerced, constant, models, named, selected, Domain, Expr,
    ExprModel,
};
use super::machine::{
    compute, computed, counted_lanes, dimensions_helper, dimensions_text, first_lanes_of, immediate, immediate_of,
    index_of, index_or_zero, nothing, nought, one_value, single, source_models, zero, Eval, EvalModel,
};
use super::names::{sampler_text, texture_text, Names};
use crate::shex::ir::{
    instruction_models, operand_models, ComponentSelect, IndexModel, Instruction, InstructionKind, InstructionModel,
    KindModel, Operand, OperandIndex, OperandModel, RegisterType,
};
use crate::shex::opcodes::Opcode;
use crate::text::{cat2, cat3, same};
use vstd::prelude::*;

verus! {

/// The slot an instruction's first operand names.
pub open spec fn declared_slot(i: InstructionModel) -> Option<u32> {
    if i.kind.operands().len() == 0 {
        None
    } else {
        immediate_of(i.kind.operands()[0])
    }
}

/// The slot an instruction's first operand names.
pub fn slot_declared(i: &Instruction) -> (r: Option<u32>)
    ensures
        r == declared_slot(i@),
{
    let operands = i.operands();
    proof {
        assert(operand_models(operands@).len() == operands@.len());
        if operands@.len() > 0 {
            assert(operand_models(operands@)[0] == operands@[0]@);
        }
    }
    if operands.len() == 0 {
        None
    } else {
        immediate(&operands[0])
    }
}

/// What a texture slot is, as the last of the first `n` instructions to declare it says.
pub open spec fn dimension_declared(instructions: Seq<InstructionModel>, slot: u32, n: int) -> Option<Seq<char>>
    decreases n,
{
    if n <= 0 {
        None
    } else {
        match instructions[n - 1].kind {
            KindModel::DclResource { dimension, .. } if declared_slot(instructions[n - 1]) == Some(slot) => Some(
                dimension,
            ),
            _ => dimension_declared(instructions, slot, n - 1),
        }
    }
}

/// The element size of a buffer slot, as the last of the first `n` instructions to declare it says.
pub open spec fn stride_declared(instructions: Seq<InstructionModel>, slot: u32, n: int) -> Option<u32>
    decreases n,
{
    if n <= 0 {
        None
    } else {
        match instructions[n - 1].kind {
            KindModel::DclResourceStructured { stride, .. } if declared_slot(instructions[n - 1]) == Some(slot) => Some(
                stride,
            ),
            _ => stride_declared(instructions, slot, n - 1),
        }
    }
}

/// The registers an instruction declares a constant buffer to have, and its slot.
pub open spec fn span_of(i: InstructionModel) -> Option<(u16, u32)> {
    match (i.kind, declared_slot(i)) {
        (KindModel::DclConstantBuffer { operands, .. }, Some(slot)) => if operands[0].indices.len() > 1 {
            match operands[0].indices[1] {
                IndexModel::Imm32(span) => Some((slot as u16, span)),
                _ => None,
            }
        } else {
            None
        },
        _ => None,
    }
}

/// The registers a constant buffer has, as the last of the first `n` instructions to declare it says.
pub open spec fn span_declared(instructions: Seq<InstructionModel>, slot: u16, n: int) -> Option<u32>
    decreases n,
{
    if n <= 0 {
        None
    } else {
        match span_of(instructions[n - 1]) {
            Some((held, span)) if held == slot => Some(span),
            _ => span_declared(instructions, slot, n - 1),
        }
    }
}

fn find_dimension(instructions: &Vec<Instruction>, slot: u32) -> (r: Option<&'static str>)
    ensures
        match r {
            Some(t) => dimension_declared(
                instruction_models(instructions@),
                slot,
                instructions@.len() as int,
            ) == Some(t@),
            None => dimension_declared(instruction_models(instructions@), slot, instructions@.len() as int) is None,
        },
{
    let ghost all = instruction_models(instructions@);
    let mut n: usize = instructions.len();
    while n > 0
        invariant
            n <= instructions@.len(),
            all == instruction_models(instructions@),
            dimension_declared(all, slot, instructions@.len() as int) == dimension_declared(all, slot, n as int),
        decreases n,
    {
        let held = &instructions[n - 1];
        assert(all[n - 1] == held@);
        if let InstructionKind::DclResource { dimension, .. } = &held.kind {
            if let Some(found) = slot_declared(held) {
                if found == slot {
                    return Some(*dimension);
                }
            }
        }
        n = n - 1;
    }
    None
}

fn find_stride(instructions: &Vec<Instruction>, slot: u32) -> (r: Option<u32>)
    ensures
        r == stride_declared(instruction_models(instructions@), slot, instructions@.len() as int),
{
    let ghost all = instruction_models(instructions@);
    let mut n: usize = instructions.len();
    while n > 0
        invariant
            n <= instructions@.len(),
            all == instruction_models(instructions@),
            stride_declared(all, slot, instructions@.len() as int) == stride_declared(all, slot, n as int),
        decreases n,
    {
        let held = &instructions[n - 1];
        assert(all[n - 1] == held@);
        if let InstructionKind::DclResourceStructured { stride, .. } = &held.kind {
            if let Some(found) = slot_declared(held) {
                if found == slot {
                    return Some(*stride);
                }
            }
        }
        n = n - 1;
    }
    None
}

/// The registers a constant buffer is declared to have.
pub fn find_span(instructions: &Vec<Instruction>, slot: u16) -> (r: Option<u32>)
    ensures
        r == span_declared(instruction_models(instructions@), slot, instructions@.len() as int),
{
    let ghost all = instruction_models(instructions@);
    let mut n: usize = instructions.len();
    while n > 0
        invariant
            n <= instructions@.len(),
            all == instruction_models(instructions@),
            span_declared(all, slot, instructions@.len() as int) == span_declared(all, slot, n as int),
        decreases n,
    {
        let held = &instructions[n - 1];
        assert(all[n - 1] == held@);
        if let Some((found, span)) = declared_span(held) {
            if found == slot {
                return Some(span);
            }
        }
        n = n - 1;
    }
    None
}

fn declared_span(i: &Instruction) -> (r: Option<(u16, u32)>)
    ensures
        r == span_of(i@),
{
    match &i.kind {
        InstructionKind::DclConstantBuffer { operands, .. } => match slot_declared(i) {
            Some(slot) => {
                proof {
                    assert(operand_models(operands@)[0] == operands@[0]@);
                    assert(operands@[0]@.indices.len() == operands@[0].indices@.len());
                }
                if operands[0].indices.len() > 1 {
                    proof {
                        assert(operands@[0]@.indices[1] == operands@[0].indices@[1]@);
                    }
                    match &operands[0].indices[1] {
                        OperandIndex::Imm32(span) => Some((slot as u16, *span)),
                        _ => None,
                    }
                } else {
                    None
                }
            },
            None => None,
        },
        _ => None,
    }
}

/// How many coordinate components a texture of a dimension takes.
pub open spec fn coordinate_count(dimension: Option<Seq<char>>) -> u8 {
    match dimension {
        None => 2,
        Some(d) => if d == "texture1d"@ || d == "buffer"@ {
            1
        } else if d == "texture1darray"@ || d == "texture2d"@ || d == "texture2dms"@ {
            2
        } else if d == "texturecubearray"@ {
            4
        } else {
            3
        },
    }
}

fn coordinates(dimension: Option<&'static str>) -> (r: u8)
    ensures
        r == coordinate_count(
            match dimension {
                Some(t) => Some(t@),
                None => None,
            },
        ),
        r <= 4,
{
    match dimension {
        None => 2,
        Some(d) => {
            if same(d, "texture1d") || same(d, "buffer") {
                1
            } else if same(d, "texture1darray") || same(d, "texture2d") || same(d, "texture2dms") {
                2
            } else if same(d, "texturecubearray") {
                4
            } else {
                3
            }
        },
    }
}

/// Lanes of a source read in a domain, nought where there is no such source.
pub open spec fn taken(sources: Seq<(ExprModel, Domain)>, at: int, want: Domain, lanes: Seq<u8>) -> ExprModel {
    if 0 <= at < sources.len() {
        selected(coerced(sources[at].0, sources[at].1, want), lanes)
    } else {
        nought(want)
    }
}

fn take(sources: &Vec<(Expr, Domain)>, at: usize, want: Domain, lanes: &[u8]) -> (r: Expr)
    ensures
        r@ == taken(source_models(sources@), at as int, want, lanes@),
{
    if at < sources.len() {
        coerce(sources[at].0.duplicate(), sources[at].1, want).select(lanes)
    } else {
        zero(want)
    }
}

/// Which channel a gather brings back: the sampler operand's own component select.
pub open spec fn channel_of(operands: Seq<OperandModel>, at: int) -> u8 {
    if 0 <= at < operands.len() {
        match operands[at].components {
            ComponentSelect::Scalar(component) => component,
            ComponentSelect::Swizzle(swizzle) => swizzle@[0],
            _ => 0,
        }
    } else {
        0
    }
}

fn channel(operands: &[Operand], at: usize) -> (r: u8)
    ensures
        r == channel_of(operand_models(operands@), at as int),
{
    proof {
        assert(operand_models(operands@).len() == operands@.len());
        if at < operands@.len() {
            assert(operand_models(operands@)[at as int] == operands@[at as int]@);
        }
    }
    if at < operands.len() {
        match &operands[at].components {
            ComponentSelect::Scalar(component) => *component,
            ComponentSelect::Swizzle(swizzle) => swizzle[0],
            _ => 0,
        }
    } else {
        0
    }
}

/// What the method of a sampling instruction is called, nothing for one that does not sample.
pub open spec fn sampling_method(opcode: Opcode, channel: u8) -> Option<Seq<char>> {
    match opcode {
        Opcode::Sample => Some("Sample"@),
        Opcode::SampleB => Some("SampleBias"@),
        Opcode::SampleL => Some("SampleLevel"@),
        Opcode::SampleD => Some("SampleGrad"@),
        Opcode::SampleC => Some("SampleCmp"@),
        Opcode::SampleCLz => Some("SampleCmpLevelZero"@),
        Opcode::Gather4 => Some(
            if channel == 1 {
                "GatherGreen"@
            } else if channel == 2 {
                "GatherBlue"@
            } else if channel == 3 {
                "GatherAlpha"@
            } else {
                "GatherRed"@
            },
        ),
        _ => None,
    }
}

fn sampling(opcode: Opcode, channel: u8) -> (r: Option<&'static str>)
    ensures
        match r {
            Some(t) => sampling_method(opcode, channel) == Some(t@),
            None => sampling_method(opcode, channel) is None,
        },
{
    match opcode {
        Opcode::Sample => Some("Sample"),
        Opcode::SampleB => Some("SampleBias"),
        Opcode::SampleL => Some("SampleLevel"),
        Opcode::SampleD => Some("SampleGrad"),
        Opcode::SampleC => Some("SampleCmp"),
        Opcode::SampleCLz => Some("SampleCmpLevelZero"),
        Opcode::Gather4 => {
            if channel == 1 {
                Some("GatherGreen")
            } else if channel == 2 {
                Some("GatherBlue")
            } else if channel == 3 {
                Some("GatherAlpha")
            } else {
                Some("GatherRed")
            }
        },
        _ => None,
    }
}

/// What follows the coordinate of a sampling method: the two gradients, or a bias, a level or a comparison value,
/// which all sit in the same place after the sampler.
pub open spec fn trailing(opcode: Opcode, sources: Seq<(ExprModel, Domain)>) -> Seq<ExprModel> {
    match opcode {
        Opcode::SampleD => (if sources.len() > 3 {
            seq![taken(sources, 3, Domain::Float, seq![0u8, 1u8])]
        } else {
            Seq::empty()
        }) + (if sources.len() > 4 {
            seq![taken(sources, 4, Domain::Float, seq![0u8, 1u8])]
        } else {
            Seq::empty()
        }),
        Opcode::SampleB | Opcode::SampleL | Opcode::SampleC | Opcode::SampleCLz => if sources.len() > 3 {
            seq![taken(sources, 3, Domain::Float, seq![0u8])]
        } else {
            Seq::empty()
        },
        _ => Seq::empty(),
    }
}

/// The arguments of a sampling method. Every one leads with the sampler and the coordinate, and differs only in
/// what follows them.
pub open spec fn sampled_args(
    opcode: Opcode,
    sampler: Option<Seq<char>>,
    sources: Seq<(ExprModel, Domain)>,
    count: nat,
) -> Seq<ExprModel> {
    (match sampler {
        Some(name) => seq![ExprModel::Read { base: name, swizzle: Seq::empty() }],
        None => Seq::empty(),
    }) + seq![taken(sources, 0, Domain::Float, first_lanes_of(count))] + trailing(opcode, sources)
}

fn push_expr(list: &mut Vec<Expr>, e: Expr)
    ensures
        models(final(list)@) == models(old(list)@).push(e@),
{
    let ghost before = models(list@);
    let ghost m = e@;
    list.push(e);
    proof {
        assert(models(list@) =~= before.push(m));
    }
}

fn sample_args(opcode: Opcode, sampler: &Option<String>, sources: &Vec<(Expr, Domain)>, count: u8) -> (r: Vec<Expr>)
    ensures
        models(r@) == sampled_args(
            opcode,
            match *sampler {
                Some(name) => Some(name@),
                None => None,
            },
            source_models(sources@),
            count as nat,
        ),
{
    let ghost all = source_models(sources@);
    let mut args: Vec<Expr> = Vec::new();
    proof {
        assert(models(args@) =~= Seq::<ExprModel>::empty());
    }
    if let Some(name) = sampler {
        let none: Vec<u8> = Vec::new();
        proof {
            assert(none@ =~= Seq::<u8>::empty());
        }
        push_expr(&mut args, named(name.clone(), none));
    }
    let lanes = counted_lanes(count);
    push_expr(&mut args, take(sources, 0, Domain::Float, lanes.as_slice()));
    let ghost lead = models(args@);
    match opcode {
        Opcode::SampleD => {
            let both = counted_lanes(2);
            proof {
                assert(both@ =~= seq![0u8, 1u8]);
            }
            if sources.len() > 3 {
                push_expr(&mut args, take(sources, 3, Domain::Float, both.as_slice()));
            }
            if sources.len() > 4 {
                push_expr(&mut args, take(sources, 4, Domain::Float, both.as_slice()));
            }
        },
        Opcode::SampleB | Opcode::SampleL | Opcode::SampleC | Opcode::SampleCLz => {
            let one = counted_lanes(1);
            proof {
                assert(one@ =~= seq![0u8]);
            }
            if sources.len() > 3 {
                push_expr(&mut args, take(sources, 3, Domain::Float, one.as_slice()));
            }
        },
        _ => {},
    }
    proof {
        assert(models(args@) =~= lead + trailing(opcode, all));
    }
    args
}

/// Every lane is nought.
pub open spec fn all_nought(bits: Seq<u32>) -> bool {
    forall|i: int| 0 <= i < bits.len() ==> #[trigger] bits[i] == 0
}

/// The byte address of an element of a structured buffer. The offset within an element is nearly always the start
/// of it.
pub open spec fn address_of(sources: Seq<(ExprModel, Domain)>, stride: u32) -> ExprModel {
    let start = binary_model(
        "*"@,
        taken(sources, 0, Domain::Uint, seq![0u8]),
        ExprModel::Literal { bits: seq![stride], domain: Domain::Uint },
    );
    let offset = taken(sources, 1, Domain::Uint, seq![0u8]);
    if offset is Literal && all_nought(offset->bits) {
        start
    } else {
        binary_model("+"@, start, offset)
    }
}

fn is_nought(e: &Expr) -> (r: bool)
    ensures
        r == (e@ is Literal && all_nought(e@->bits)),
{
    match e {
        Expr::Literal { bits, .. } => {
            let mut i: usize = 0;
            while i < bits.len()
                invariant
                    i <= bits@.len(),
                    e@ is Literal,
                    e@->bits == bits@,
                    forall|k: int| 0 <= k < i ==> #[trigger] bits@[k] == 0,
                decreases bits@.len() - i,
            {
                if bits[i] != 0 {
                    return false;
                }
                i = i + 1;
            }
            true
        },
        _ => false,
    }
}

fn address(sources: &Vec<(Expr, Domain)>, stride: u32) -> (r: Expr)
    ensures
        r@ == address_of(source_models(sources@), stride),
{
    let one = counted_lanes(1);
    proof {
        assert(one@ =~= seq![0u8]);
    }
    let mut bits: Vec<u32> = Vec::new();
    bits.push(stride);
    proof {
        assert(bits@ =~= seq![stride]);
    }
    let start = binary("*", take(sources, 0, Domain::Uint, one.as_slice()), constant(bits, Domain::Uint));
    let offset = take(sources, 1, Domain::Uint, one.as_slice());
    if is_nought(&offset) {
        start
    } else {
        binary("+", start, offset)
    }
}

/// Where an instruction's resource stands among its sources: after the coordinate everywhere but in a structured
/// load, which takes an element index and a byte offset first.
pub open spec fn resource_place(opcode: Opcode) -> int {
    if opcode == Opcode::LdStructured {
        2
    } else {
        1
    }
}

/// The name of the sampler that an operand is, where it is one.
pub open spec fn sampler_at(names: Names, operands: Seq<OperandModel>, at: int) -> Option<Seq<char>> {
    if 0 <= at < operands.len() && operands[at].reg_type == RegisterType::Sampler {
        Some(sampler_text(names, index_of(operands[at]) as u16))
    } else {
        None
    }
}

/// What a read brings back, as the resource operand's own swizzle permutes it before the destination mask takes
/// from it.
pub open spec fn permuted(value: ExprModel, resource: OperandModel) -> ExprModel {
    match resource.components {
        ComponentSelect::Swizzle(swizzle) => selected(value, swizzle@),
        _ => value,
    }
}

fn permute(value: Expr, resource: &Operand) -> (r: Expr)
    ensures
        r@ == permuted(value@, resource@),
{
    match &resource.components {
        ComponentSelect::Swizzle(swizzle) => value.select(swizzle.as_slice()),
        _ => value,
    }
}

/// What a texture or buffer read computes, whose sources start at an operand.
pub open spec fn fetched(
    names: Names,
    instructions: Seq<InstructionModel>,
    opcode: Opcode,
    sources: Seq<(ExprModel, Domain)>,
    operands: Seq<OperandModel>,
    from: int,
) -> EvalModel {
    let place = from + resource_place(opcode);
    if place >= operands.len() {
        EvalModel { values: Seq::empty(), helper: None }
    } else {
        let resource = operands[place];
        let slot = index_of(resource);
        let name = texture_text(names, slot as u16);
        let dimension = dimension_declared(instructions, slot, instructions.len() as int);
        let count = coordinate_count(dimension) as nat;
        match sampling_method(opcode, channel_of(operands, place + 1)) {
            Some(method) => one_value(
                permuted(
                    call_model(
                        name + "."@ + method,
                        sampled_args(opcode, sampler_at(names, operands, place + 1), sources, count),
                        4,
                    ),
                    resource,
                ),
                Domain::Float,
            ),
            None => match opcode {
                // A load takes integer coordinates with the mip level in the last component.
                Opcode::Ld | Opcode::LdMs => one_value(
                    permuted(
                        call_model(
                            name + "."@ + "Load"@,
                            seq![taken(sources, 0, Domain::Int, first_lanes_of(count + 1))],
                            4,
                        ),
                        resource,
                    ),
                    Domain::Float,
                ),
                Opcode::LdRaw => one_value(
                    permuted(
                        call_model(
                            name + "."@ + "Load4"@,
                            seq![taken(sources, 0, Domain::Uint, seq![0u8])],
                            4,
                        ),
                        resource,
                    ),
                    Domain::Uint,
                ),
                Opcode::LdStructured => {
                    let stride = match stride_declared(instructions, slot, instructions.len() as int) {
                        Some(stride) => stride,
                        None => 16,
                    };
                    one_value(
                        permuted(call_model(name + "."@ + "Load4"@, seq![address_of(sources, stride)], 4), resource),
                        Domain::Uint,
                    )
                },
                _ => {
                    let kind = match dimension {
                        Some(d) => d,
                        None => "texture2d"@,
                    };
                    EvalModel {
                        helper: Some(dimensions_text(name, kind)),
                        ..one_value(
                            call_model(
                                "dimensions_"@ + name,
                                seq![taken(sources, 0, Domain::Float, seq![0u8])],
                                4,
                            ),
                            Domain::Float,
                        )
                    }
                },
            },
        }
    }
}

fn sampler_name(names: &Names, operands: &[Operand], at: usize) -> (r: Option<String>)
    ensures
        match r {
            Some(t) => sampler_at(*names, operand_models(operands@), at as int) == Some(t@),
            None => sampler_at(*names, operand_models(operands@), at as int) is None,
        },
{
    proof {
        assert(operand_models(operands@).len() == operands@.len());
        if at < operands@.len() {
            assert(operand_models(operands@)[at as int] == operands@[at as int]@);
        }
    }
    if at < operands.len() && operands[at].reg_type == RegisterType::Sampler {
        Some(names.sampler(index_or_zero(&operands[at]) as u16))
    } else {
        None
    }
}

/// What a texture or buffer read computes, whose sources start at an operand.
pub fn fetch(
    names: &Names,
    instructions: &Vec<Instruction>,
    opcode: Opcode,
    sources: &Vec<(Expr, Domain)>,
    operands: &[Operand],
    from: usize,
) -> (r: Eval)
    requires
        from <= 2,
    ensures
        r@ == fetched(
            *names,
            instruction_models(instructions@),
            opcode,
            source_models(sources@),
            operand_models(operands@),
            from as int,
        ),
{
    let ghost all = source_models(sources@);
    let structured = match opcode {
        Opcode::LdStructured => true,
        _ => false,
    };
    let place: usize = if structured {
        from + 2
    } else {
        from + 1
    };
    proof {
        assert(operand_models(operands@).len() == operands@.len());
    }
    if place >= operands.len() {
        return nothing();
    }
    let resource = &operands[place];
    proof {
        assert(operand_models(operands@)[place as int] == resource@);
        assert(instruction_models(instructions@).len() == instructions@.len());
    }
    let slot = index_or_zero(resource);
    let name = names.texture(slot as u16);
    let dimension = find_dimension(instructions, slot);
    let count = coordinates(dimension);
    let one = counted_lanes(1);
    proof {
        assert(one@ =~= seq![0u8]);
    }
    match sampling(opcode, channel(operands, place + 1)) {
        Some(method) => {
            let sampler = sampler_name(names, operands, place + 1);
            let args = sample_args(opcode, &sampler, sources, count);
            let full = cat3(name.as_str(), ".", method);
            return single(permute(call(full.as_str(), args, 4), resource), Domain::Float);
        },
        None => {},
    }
    match opcode {
        Opcode::Ld | Opcode::LdMs => {
            let lanes = counted_lanes(count + 1);
            let full = cat3(name.as_str(), ".", "Load");
            let value = call1(full.as_str(), take(sources, 0, Domain::Int, lanes.as_slice()), 4);
            single(permute(value, resource), Domain::Float)
        },
        Opcode::LdRaw => {
            let full = cat3(name.as_str(), ".", "Load4");
            let value = call1(full.as_str(), take(sources, 0, Domain::Uint, one.as_slice()), 4);
            single(permute(value, resource), Domain::Uint)
        },
        Opcode::LdStructured => {
            let stride: u32 = match find_stride(instructions, slot) {
                Some(stride) => stride,
                None => 16,
            };
            let full = cat3(name.as_str(), ".", "Load4");
            let value = call1(full.as_str(), address(sources, stride), 4);
            single(permute(value, resource), Domain::Uint)
        },
        _ => {
            let kind = match dimension {
                Some(d) => d,
                None => "texture2d",
            };
            let full = cat2("dimensions_", name.as_str());
            let value = call1(full.as_str(), take(sources, 0, Domain::Float, one.as_slice()), 4);
            let mut r = single(value, Domain::Float);
            r.helper = Some(dimensions_helper(name.as_str(), kind));
            r
        },
    }
}

/// The instruction reads a texture or a buffer.
pub open spec fn reads_resource(opcode: Opcode) -> bool {
    match opcode {
        Opcode::Sample | Opcode::SampleB | Opcode::SampleL | Opcode::SampleD | Opcode::SampleC | Opcode::SampleCLz
        | Opcode::Gather4 | Opcode::Ld | Opcode::LdMs | Opcode::LdStructured | Opcode::LdRaw | Opcode::Resinfo => true,
        _ => false,
    }
}

/// The first destination is discarded.
pub open spec fn discarded(operands: Seq<OperandModel>) -> bool {
    operands.len() == 0 || operands[0].reg_type == RegisterType::Null
}

/// What an instruction computes, one entry per destination, whose sources start at an operand.
pub open spec fn evaluated(
    names: Names,
    instructions: Seq<InstructionModel>,
    opcode: Opcode,
    sources: Seq<(ExprModel, Domain)>,
    operands: Seq<OperandModel>,
    from: int,
    width: usize,
) -> EvalModel {
    if reads_resource(opcode) {
        fetched(names, instructions, opcode, sources, operands, from)
    } else {
        computed(opcode, sources, discarded(operands), width)
    }
}

/// What an instruction computes, one entry per destination, whose sources start at an operand.
pub fn evaluate(
    names: &Names,
    instructions: &Vec<Instruction>,
    opcode: Opcode,
    sources: &Vec<(Expr, Domain)>,
    operands: &[Operand],
    from: usize,
    width: usize,
) -> (r: Eval)
    requires
        from <= 2,
    ensures
        r@ == evaluated(
            *names,
            instruction_models(instructions@),
            opcode,
            source_models(sources@),
            operand_models(operands@),
            from as int,
            width,
        ),
{
    let fetches = match opcode {
        Opcode::Sample | Opcode::SampleB | Opcode::SampleL | Opcode::SampleD | Opcode::SampleC | Opcode::SampleCLz
        | Opcode::Gather4 | Opcode::Ld | Opcode::LdMs | Opcode::LdStructured | Opcode::LdRaw | Opcode::Resinfo => true,
        _ => false,
    };
    if fetches {
        return fetch(names, instructions, opcode, sources, operands, from);
    }
    proof {
        assert(operand_models(operands@).len() == operands@.len());
        if operands@.len() > 0 {
            assert(operand_models(operands@)[0] == operands@[0]@);
        }
    }
    let discards = operands.len() == 0 || operands[0].reg_type == RegisterType::Null;
    compute(opcode, sources, discards, width)
}

} // verus!
