//! What a walk over a shader's instructions does, and everything it remembers while folding them.
//!
//! Every instruction writes a register, so a line of the original source comes back as a run of them. The walk keeps,
//! for each component of each register, the value that last landed there, and folds that value into whatever reads it
//! next. A value read once, in the same block, with nothing disturbing what it was computed from, disappears into its
//! reader; a value read twice, read from another block, or read after something it depends on was overwritten is
//! written down under the register's own name.
use super::expr::{
    call_model, coerced, lane_letters, picked, rendered, selected, unary_model, width, Domain, ExprModel,
};
use super::fetch::{evaluated, span_declared};
use super::idiom::simplified;
use super::machine::{
    destination_count, first_lanes_of, index_of, lanes_written, lines_up, sized_text, supplied, written_lanes,
};
use super::matrix::{coalesced, folded, target_text, transformed, EmittedModel};
use super::names::{domain_of, lookup, reaching, sampler_text, texture_text, Names};
use super::structure::StmtModel;
use super::tidy::placed;
use super::value::{
    apart, element_sizes, flag, fresh_starts, merged, moving, unstrided, unused, DefModel, Slot, Touch, Usage,
};
use super::words::indent;
use super::Reading;
use crate::shex::fmt::instruction_text;
use crate::shex::ir::{IndexModel, InstructionModel, OperandModel, RegisterType};
use crate::shex::opcodes::Opcode;
use crate::text::dec;
use vstd::prelude::*;

verus! {

/// Which value owns a component of a register, and which of its lanes. The last one to land there does.
#[derive(Clone, Copy)]
pub struct Cell {
    pub key: (u32, u32),
    pub lane: u8,
    pub id: usize,
    pub position: u8,
}

/// What a walk goes by.
#[verifier::ext_equal]
pub struct SceneModel {
    pub instructions: Seq<InstructionModel>,
    pub names: Names,
    /// Constant buffers declared as an array of registers rather than as named fields.
    pub computed: Seq<u16>,
    pub reading: Reading,
    /// Whether the shader hands a value back, which decides what a return says.
    pub hands_back: bool,
    /// Which values go to their readers. None on the counting walk, which writes every value down.
    pub folded: Seq<bool>,
    /// Which values get a name of their own instead of a register.
    pub localised: Seq<bool>,
    /// Which values start their register over under a name of its own.
    pub splits: Seq<bool>,
    /// The element size of each value that holds an element rather than the register it starts at, nought for every
    /// other value.
    pub elemental: Seq<u32>,
    /// Buffers being read as arrays of structs rather than as arrays of registers.
    pub arrays: Seq<u16>,
    /// Set while nothing is known about what moves, so every value is taken to depend on everything behind it.
    pub cautious: bool,
}

/// What a walk remembers.
#[verifier::ext_equal]
pub struct WalkModel {
    pub cells: Seq<Cell>,
    pub defs: Seq<DefModel>,
    pub usage: Seq<Usage>,
    /// Values by the register components they read.
    pub waiting: Seq<(Slot, usize)>,
    /// Every register component read, and when, so that the point a register stops carrying one value and starts
    /// carrying the next can be found.
    pub touches: Seq<Touch>,
    /// The registers that started over, once for each time.
    pub versions: Seq<(u32, u32)>,
    /// The names those changes took, in the order the body introduces them.
    pub renamed: Seq<Seq<char>>,
    /// Whether the walk is inside a loop.
    pub looped: bool,
    /// Names handed out, since two values in one register cannot share one.
    pub issued: Seq<Seq<char>>,
    /// Whether each run-time read of a buffer looked like an element of it and a register within that element. One
    /// read that did not is enough to leave the whole buffer as registers.
    pub votes: Seq<(u16, bool)>,
    /// The values used to pick an element of each buffer, so that one used for anything else can stop the whole
    /// buffer being read that way.
    pub indexers: Seq<(u16, usize)>,
    /// Functions the body needs that HLSL does not provide, in order.
    pub helpers: Seq<Seq<char>>,
    /// What each line assigns, where it assigns anything, so that a run of them can be recognised as one operation
    /// afterwards.
    pub emitted: Seq<Option<EmittedModel>>,
    pub block: usize,
    pub blocks: usize,
    /// The statements written so far, one per line and already indented.
    pub out: Seq<Seq<char>>,
}

/// A walk that has not started.
pub open spec fn fresh() -> WalkModel {
    WalkModel {
        cells: Seq::empty(),
        defs: Seq::empty(),
        usage: Seq::empty(),
        waiting: Seq::empty(),
        touches: Seq::empty(),
        versions: Seq::empty(),
        renamed: Seq::empty(),
        looped: false,
        issued: Seq::empty(),
        votes: Seq::empty(),
        indexers: Seq::empty(),
        helpers: Seq::empty(),
        emitted: Seq::empty(),
        block: 0,
        blocks: 0,
        out: Seq::empty(),
    }
}

/// A value read out of the machine, and what reading it depended on.
#[verifier::ext_equal]
pub struct SourcedModel {
    pub expr: ExprModel,
    pub domain: Domain,
    pub reads: Seq<Slot>,
    /// The value read, where the read came down to a single one. What a value is used for is only known where it is
    /// read, and one used only to index a buffer of structs can be the element rather than the register.
    pub owner: Option<usize>,
}

/// The value that last landed in a component of a register, among the first `n` landings, and which of its lanes.
pub open spec fn owner_of(cells: Seq<Cell>, key: (u32, u32), lane: u8, n: int) -> Option<(usize, u8)>
    decreases n,
{
    if n <= 0 {
        None
    } else if cells[n - 1].key == key && cells[n - 1].lane == lane % 4 {
        Some((cells[n - 1].id, cells[n - 1].position))
    } else {
        owner_of(cells, key, lane, n - 1)
    }
}

/// The value behind each component read.
pub open spec fn owners(cells: Seq<Cell>, key: (u32, u32), comps: Seq<u8>) -> Seq<Option<(usize, u8)>> {
    Seq::new(comps.len(), |i: int| owner_of(cells, key, comps[i], cells.len() as int))
}

/// The owner is a value.
pub open spec fn owned_by(owner: Option<(usize, u8)>, id: usize) -> bool {
    match owner {
        Some((other, _)) => other == id,
        None => false,
    }
}

/// One value behind every component read, or the read is of several and none of them can move into it.
pub open spec fn sole_owner(held: Seq<Option<(usize, u8)>>) -> Option<usize> {
    if held.len() == 0 {
        None
    } else {
        match held[0] {
            None => None,
            Some((id, _)) => if forall|i: int| 0 <= i < held.len() ==> owned_by(#[trigger] held[i], id) {
                Some(id)
            } else {
                None
            },
        }
    }
}

/// The lanes of a value that its reader takes.
pub open spec fn positions(held: Seq<Option<(usize, u8)>>) -> Seq<u8> {
    Seq::new(held.len(), |i: int| (held[i]->0).1)
}

/// The reads of a register's components, when so many values had been made.
pub open spec fn touched(key: (u32, u32), comps: Seq<u8>, at: usize) -> Seq<Touch> {
    Seq::new(comps.len(), |i: int| (key, comps[i] % 4, at))
}

/// The components of a register.
pub open spec fn slots_of(key: (u32, u32), comps: Seq<u8>) -> Seq<Slot> {
    Seq::new(comps.len(), |i: int| (key.0, key.1, comps[i] % 4))
}

/// The usage once the first `n` of several values were read together.
pub open spec fn mixed(usage: Seq<Usage>, held: Seq<Option<(usize, u8)>>, n: int) -> Seq<Usage>
    decreases n,
{
    if n <= 0 {
        usage
    } else {
        let before = mixed(usage, held, n - 1);
        match held[n - 1] {
            Some((id, _)) => before.update(id as int, Usage { mixed: true, ..before[id as int] }),
            None => before,
        }
    }
}

/// The usage of a value once it was read.
pub open spec fn read_once(usage: Usage, at: usize, distant: bool) -> Usage {
    Usage { reads: (usage.reads + 1) as usize, last: at, distant: usage.distant || distant, ..usage }
}

/// The components an operand supplies. A constant carries values rather than a swizzle, so its lanes are the
/// destination's.
pub open spec fn wanted(operand: OperandModel, lanes: Seq<u8>) -> Seq<u8> {
    match operand.reg_type {
        RegisterType::Immediate32 | RegisterType::Immediate64 => lanes,
        _ => supplied(operand, lanes),
    }
}

/// The walk follows the register file component by component.
pub open spec fn followed(file: RegisterType) -> bool {
    file == RegisterType::Temp || file == RegisterType::Output
}

/// An expression with the negate and absolute-value modifiers an operand carries.
pub open spec fn modified(operand: OperandModel, e: ExprModel) -> ExprModel {
    let inner = if operand.abs {
        call_model("abs"@, seq![e], width(e) as usize)
    } else {
        e
    };
    if operand.negate {
        unary_model("-"@, inner)
    } else {
        inner
    }
}

/// How a register was called, `n` of the changes of name into the body: how often it had started over.
pub open spec fn version_of(versions: Seq<(u32, u32)>, key: (u32, u32), n: int) -> nat
    decreases n,
{
    if n <= 0 {
        0
    } else {
        version_of(versions, key, n - 1) + if versions[n - 1] == key {
            1nat
        } else {
            0nat
        }
    }
}

/// What a temporary register is called at this point in the body.
pub open spec fn spelling(versions: Seq<(u32, u32)>, index: u32) -> Seq<char> {
    let version = version_of(versions, (RegisterType::Temp.raw(), index), versions.len() as int);
    if version == 0 {
        "r"@ + dec(index as nat)
    } else {
        "r"@ + dec(index as nat) + "_"@ + dec(version + 1)
    }
}

/// Components sharing a name come back as one read; the rest are put side by side.
pub open spec fn gathered(parts: Seq<(Seq<char>, u8)>) -> ExprModel {
    if parts.len() > 0 && forall|i: int| 0 <= i < parts.len() ==> (#[trigger] parts[i]).0 == parts[0].0 {
        ExprModel::Read { base: parts[0].0, swizzle: Seq::new(parts.len(), |i: int| parts[i].1) }
    } else {
        ExprModel::Vector(
            Seq::new(parts.len(), |i: int| ExprModel::Read { base: parts[i].0, swizzle: seq![parts[i].1] }),
        )
    }
}

/// The bits of a constant that a reader takes.
pub open spec fn constant_bits(values: Seq<u32>, comps: Seq<u8>) -> Seq<u32> {
    if values.len() == 0 {
        seq![0u32]
    } else if values.len() == 1 || picked(values, comps, comps.len()).len() == 0 {
        values
    } else {
        picked(values, comps, comps.len())
    }
}

/// Registers one element of a buffer takes, where the buffer holds more than one element of a struct whose fields are
/// known.
pub open spec fn element_of(s: SceneModel, slot: u16) -> Option<u32> {
    match (lookup(s.names.constants@, slot as u32, 0), span_declared(s.instructions, slot, s.instructions.len() as int)) {
        (Some(buffer), Some(span)) => {
            let step = buffer@.span();
            if step > 0 && span > step && span as nat % step == 0 {
                Some(step as u32)
            } else {
                None
            }
        },
        _ => None,
    }
}

/// A run-time index into a buffer that is a whole number of elements plus a register inside one: the register, and the
/// registers an element takes.
pub open spec fn inside_of(step: Option<u32>, indices: Seq<IndexModel>) -> Option<(u32, u32)> {
    if indices.len() < 2 {
        None
    } else {
        match (step, indices[1]) {
            (Some(step), IndexModel::RelativePlusImm(offset, _)) => if offset < step {
                Some((offset, step))
            } else {
                None
            },
            (Some(step), IndexModel::Relative(_)) => Some((0, step)),
            _ => None,
        }
    }
}

/// What a constant buffer is called.
pub open spec fn buffer_text(names: Names, index: u32) -> Seq<char> {
    match lookup(names.constants@, (index as u16) as u32, 0) {
        None => "cb"@ + dec(index as nat),
        Some(buffer) => buffer@.name,
    }
}

/// The walk once a value was read as a register index into a buffer whose elements are structs of so many registers. A
/// value every one of whose reads is that can be the element instead.
pub open spec fn strided(w: WalkModel, slot: u16, owner: Option<usize>, stride: u32) -> WalkModel {
    match owner {
        None => w,
        Some(id) => {
            let held = w.usage[id as int];
            let agreed = match held.stride {
                None => if held.indexed == 0 {
                    Some(stride)
                } else {
                    None
                },
                Some(before) => if before == stride {
                    Some(stride)
                } else {
                    None
                },
            };
            WalkModel {
                indexers: w.indexers.push((slot, id)),
                usage: w.usage.update(
                    id as int,
                    Usage { indexed: (held.indexed + 1) as usize, stride: agreed, ..held },
                ),
                ..w
            }
        },
    }
}

/// A register index, as far as it is known, its text, and what reading it depended on.
#[verifier::ext_equal]
pub struct IndexedModel {
    pub register: Option<u32>,
    pub text: Seq<char>,
    /// The text of what is computed, without the number added to it.
    pub picked: Seq<char>,
    pub reads: Seq<Slot>,
    /// The value computed, where the read came down to a single one.
    pub owner: Option<usize>,
}

/// An index that is not computed.
pub open spec fn fixed_index(register: Option<u32>, text: Seq<char>) -> IndexedModel {
    IndexedModel { register, text, picked: text, reads: Seq::empty(), owner: None }
}

/// An index a read gave, with a number added where it has one.
pub open spec fn computed_index(r: SourcedModel, plus: Option<u32>) -> IndexedModel {
    let text = rendered(coerced(r.expr, r.domain, Domain::Int), 1);
    IndexedModel {
        register: None,
        text: match plus {
            None => text,
            Some(offset) => text + " + "@ + dec(offset as nat),
        },
        picked: text,
        reads: r.reads,
        owner: r.owner,
    }
}

/// A register index, which may itself be computed, and nought where there is none.
pub open spec fn index(s: SceneModel, w: WalkModel, indices: Seq<IndexModel>, at: int) -> (WalkModel, IndexedModel)
    decreases indices, 0int,
{
    if at < 0 || at >= indices.len() {
        (w, fixed_index(None, "0"@))
    } else {
        match indices[at] {
            IndexModel::Imm32(value) => (w, fixed_index(Some(value), dec(value as nat))),
            IndexModel::Imm64(value) => (w, fixed_index(None, dec(value as nat))),
            IndexModel::Relative(held) => {
                let (after, r) = read(s, w, *held, seq![0u8]);
                (after, computed_index(r, None))
            },
            IndexModel::RelativePlusImm(offset, held) => {
                let (after, r) = read(s, w, *held, seq![0u8]);
                (after, computed_index(r, Some(offset)))
            },
        }
    }
}

/// A read of an operand under a name, which depended on nothing but what found it.
pub open spec fn plainly(operand: OperandModel, e: ExprModel, reads: Seq<Slot>) -> SourcedModel {
    SourcedModel { expr: modified(operand, e), domain: Domain::Float, reads, owner: None }
}

/// The text of an element of a buffer. The value that picks it is the element itself where that is all it was ever used
/// for, and the register the element starts at otherwise.
pub open spec fn element_text(picked: Seq<char>, offset: u32, by_element: bool) -> Seq<char> {
    if by_element {
        picked
    } else {
        picked + " + "@ + dec(offset as nat)
    }
}

/// A register of an element of a buffer that is picked at run time.
pub open spec fn element_read(s: SceneModel, index: u32, picked: Seq<char>, offset: u32, comps: Seq<u8>) -> ExprModel {
    let slot = index as u16;
    let by_element = s.arrays.contains(slot);
    let element = element_text(picked, offset, by_element);
    let parts = if by_element {
        reaching(s.names, slot, Some(element), offset, comps)
    } else {
        None
    };
    match parts {
        Some(parts) => gathered(parts),
        None => ExprModel::Read { base: buffer_text(s.names, index) + "["@ + element + "]"@, swizzle: comps },
    }
}

/// A register of a buffer, where it is known, and what its index reads as otherwise: picked at run time, the buffer is an
/// array of registers and nothing names the one being read. A buffer of one register is not an array of anything, and
/// saying so on every read of it only adds noise.
pub open spec fn register_read(
    s: SceneModel,
    index: u32,
    register: Option<u32>,
    text: Seq<char>,
    comps: Seq<u8>,
) -> ExprModel {
    let slot = index as u16;
    let name = buffer_text(s.names, index);
    match register {
        Some(register) if !s.computed.contains(slot) => match reaching(s.names, slot, None, register, comps) {
            Some(parts) => gathered(parts),
            None => ExprModel::Read {
                base: if span_declared(s.instructions, slot, s.instructions.len() as int) == Some(1u32) {
                    name
                } else {
                    name + "["@ + dec(register as nat) + "]"@
                },
                swizzle: comps,
            },
        },
        _ => ExprModel::Read { base: name + "["@ + text + "]"@, swizzle: comps },
    }
}

/// A read of a constant buffer.
///
/// A buffer of structs is indexed by element and then by register within it, so a run-time index that is a whole
/// number of elements plus a register inside one can still reach a field by name. Anything else about the buffer
/// leaves it as registers. Whether the whole buffer can read this way is settled once every read has been seen, so each
/// of them says only whether it could itself.
pub open spec fn constant_read(s: SceneModel, w: WalkModel, operand: OperandModel, comps: Seq<u8>) -> (
    WalkModel,
    SourcedModel,
)
    decreases operand, 0int,
{
    let slot = index_of(operand) as u16;
    let (after, r) = index(s, w, operand.indices, 1);
    match inside_of(element_of(s, slot), operand.indices) {
        Some((offset, step)) => {
            let noted = strided(after, slot, r.owner, step);
            (
                WalkModel { votes: noted.votes.push((slot, r.owner is Some)), ..noted },
                plainly(operand, element_read(s, index_of(operand), r.picked, offset, comps), r.reads),
            )
        },
        None => (
            if s.computed.contains(slot) {
                WalkModel { votes: after.votes.push((slot, false)), ..after }
            } else {
                after
            },
            plainly(operand, register_read(s, index_of(operand), r.register, r.text, comps), r.reads),
        ),
    }
}

/// What a register that needs no index read is called.
pub open spec fn register_text(s: SceneModel, w: WalkModel, operand: OperandModel) -> Seq<char> {
    let at = index_of(operand);
    match operand.reg_type {
        RegisterType::Temp => spelling(w.versions, at),
        RegisterType::Input => "v"@ + dec(at as nat),
        // Outputs are fields of the one value the shader hands back.
        RegisterType::Output => match lookup(s.names.outputs@, at, 0) {
            None => "output.o"@ + dec(at as nat),
            Some(entry) => "output."@ + entry.name@,
        },
        // Depth has no register of its own, so the signature files it under none.
        RegisterType::OutputDepth => match lookup(s.names.outputs@, u32::MAX, 0) {
            None => "output.SV_Depth"@,
            Some(entry) => "output."@ + entry.name@,
        },
        RegisterType::Resource => texture_text(s.names, at as u16),
        RegisterType::Sampler => sampler_text(s.names, at as u16),
        other => if operand.indices.len() == 0 {
            other.prefix_text()
        } else {
            other.prefix_text() + dec(at as nat)
        },
    }
}

/// An operand as the register it names, for everything the walk does not hold a value for.
pub open spec fn register(s: SceneModel, w: WalkModel, operand: OperandModel, comps: Seq<u8>) -> (WalkModel, SourcedModel)
    decreases operand, 1int,
{
    let at = index_of(operand);
    match operand.reg_type {
        // Constants start out as floats because that is what most of them are; anything reading one as bits
        // reinterprets it rather than casting.
        RegisterType::Immediate32 => (
            w,
            plainly(
                operand,
                ExprModel::Literal { bits: constant_bits(operand.immediate_values, comps), domain: Domain::Float },
                Seq::empty(),
            ),
        ),
        RegisterType::ConstantBuffer => constant_read(s, w, operand, comps),
        RegisterType::ImmConstBuffer => {
            let (after, r) = index(s, w, operand.indices, 0);
            (after, plainly(operand, ExprModel::Read { base: "icb["@ + r.text + "]"@, swizzle: comps }, r.reads))
        },
        RegisterType::IndexableTemp => {
            let (after, r) = index(s, w, operand.indices, 1);
            // The component read is not known, so the whole array stands in for it and any write to one ends every
            // value that read it.
            let reads = r.reads.push((operand.reg_type.raw(), at, 0u8));
            let base = "x"@ + dec(at as nat) + "["@ + r.text + "]"@;
            (after, plainly(operand, ExprModel::Read { base, swizzle: comps }, reads))
        },
        RegisterType::Input => match lookup(s.names.inputs@, at, 0) {
            Some(entry) => (
                w,
                SourcedModel {
                    domain: domain_of(entry.kind@),
                    ..plainly(operand, ExprModel::Read { base: entry.name@, swizzle: comps }, Seq::empty())
                },
            ),
            None => (
                w,
                plainly(
                    operand,
                    ExprModel::Read { base: register_text(s, w, operand), swizzle: comps },
                    Seq::empty(),
                ),
            ),
        },
        RegisterType::Sampler | RegisterType::Resource => (
            w,
            plainly(
                operand,
                ExprModel::Read { base: register_text(s, w, operand), swizzle: Seq::empty() },
                Seq::empty(),
            ),
        ),
        _ => (
            w,
            plainly(operand, ExprModel::Read { base: register_text(s, w, operand), swizzle: comps }, Seq::empty()),
        ),
    }
}

/// What a read of one value gives.
///
/// A value that moves to its reader brings what it reads along, since that is what the text ends up naming. One
/// written down instead leaves behind a name settled where it was made, and the reader depends on that name alone. The
/// name, not the register: a value given one of its own is assigned once and never again, so a read of one depends on
/// nothing at all.
pub open spec fn value_read(
    s: SceneModel,
    def: DefModel,
    id: usize,
    operand: OperandModel,
    comps: Seq<u8>,
    lanes: Seq<u8>,
) -> SourcedModel {
    let key = (operand.reg_type.raw(), index_of(operand));
    let moved = flag(s.folded, id as int);
    let brought = if s.cautious || moved {
        merged(Seq::empty(), def.reads, def.reads.len() as int)
    } else {
        Seq::empty()
    };
    let reads = if s.cautious || !flag(s.localised, id as int) {
        merged(brought, slots_of(key, comps), comps.len() as int)
    } else {
        brought
    };
    let e = if moved {
        selected(def.expr, lanes)
    } else if def.local {
        // A name of its own holds only the value's own lanes, so a read of it counts from those rather than from the
        // register the value never went into. A name holding one thing needs no component naming it.
        ExprModel::Read {
            base: def.base,
            swizzle: if def.lanes.len() == 1 {
                Seq::empty()
            } else {
                lanes
            },
        }
    } else {
        ExprModel::Read { base: def.base, swizzle: comps }
    };
    // What was written down went in as bits, so reading it back is a reinterpretation. A condition is the exception:
    // it stores as one or zero and reads as itself.
    let domain = if !moved && !def.local && (def.domain == Domain::Int || def.domain == Domain::Uint) {
        Domain::Float
    } else {
        def.domain
    };
    SourcedModel { expr: modified(operand, e), domain, reads, owner: Some(id) }
}

/// A source operand, folding in whatever value already sits in it.
pub open spec fn read(s: SceneModel, w: WalkModel, operand: OperandModel, lanes: Seq<u8>) -> (WalkModel, SourcedModel)
    decreases operand, 2int,
{
    let comps = wanted(operand, lanes);
    if !followed(operand.reg_type) {
        register(s, w, operand, comps)
    } else {
        let key = (operand.reg_type.raw(), index_of(operand));
        let at = w.defs.len() as usize;
        let held = owners(w.cells, key, comps);
        let seen = WalkModel { touches: w.touches + touched(key, comps, at), ..w };
        match sole_owner(held) {
            None => {
                let blurred = WalkModel { usage: mixed(w.usage, held, held.len() as int), ..seen };
                let (after, r) = register(s, blurred, operand, comps);
                // A read the walk cannot pin to one value still came out of a register, and a later write to that
                // register has to end anything folded from it.
                (after, SourcedModel { reads: merged(r.reads, slots_of(key, comps), comps.len() as int), ..r })
            },
            Some(id) => {
                let def = w.defs[id as int];
                let usage = read_once(w.usage[id as int], at, def.block != w.block);
                (
                    WalkModel { usage: w.usage.update(id as int, usage), ..seen },
                    value_read(s, def, id, operand, comps, positions(held)),
                )
            },
        }
    }
}

/// The walk with a line that assigns nothing a run can build on.
pub open spec fn lined(w: WalkModel, depth: nat, text: Seq<char>) -> WalkModel {
    WalkModel { out: w.out.push(indent(depth) + text), emitted: w.emitted.push(None), ..w }
}

/// A value as it is written: saturated where the instruction says so, the idioms in it recognised, the element of a
/// buffer of structs it picks rather than the register that starts at, and the transform it makes.
///
/// A transform arrives one row at a time, each row folding into the next, so recognising it has to wait until the sum
/// is whole. A value going to its reader is not yet.
pub open spec fn finished(s: SceneModel, id: int, e: ExprModel, saturate: bool) -> ExprModel {
    let exact = s.reading == Reading::Exact;
    let bounded = if saturate {
        call_model("saturate"@, seq![e], width(e) as usize)
    } else {
        e
    };
    let simple = simplified(bounded, exact);
    let picked = if 0 <= id < s.elemental.len() && s.elemental[id] != 0 {
        unstrided(simple, s.elemental[id])
    } else {
        simple
    };
    if flag(s.folded, id) || exact {
        picked
    } else {
        transformed(s.names, picked)
    }
}

/// The name of what a destination reads as.
pub open spec fn base_of(e: ExprModel) -> Seq<char> {
    match e {
        ExprModel::Read { base, .. } => base,
        _ => rendered(e, 1),
    }
}

/// A value as its destination takes it. A shader output is declared with a type.
pub open spec fn taken_by(s: SceneModel, dest: OperandModel, e: ExprModel, domain: Domain) -> (ExprModel, Domain) {
    if dest.reg_type == RegisterType::Output {
        match lookup(s.names.outputs@, index_of(dest), 0) {
            Some(entry) => (coerced(e, domain, domain_of(entry.kind@)), domain_of(entry.kind@)),
            None => (e, domain),
        }
    } else {
        (e, domain)
    }
}

/// How often a name was handed out, among the first `n`.
pub open spec fn times_issued(issued: Seq<Seq<char>>, stem: Seq<char>, n: int) -> nat
    decreases n,
{
    if n <= 0 {
        0
    } else {
        times_issued(issued, stem, n - 1) + if issued[n - 1] == stem {
            1nat
        } else {
            0nat
        }
    }
}

/// A name of its own for a value, after the register it would have gone to, kept apart from any earlier value of the
/// same one. The name has just been handed out.
pub open spec fn own_name(issued: Seq<Seq<char>>, stem: Seq<char>) -> Seq<char> {
    let seen = times_issued(issued, stem, issued.len() as int);
    if seen == 1 {
        stem
    } else {
        stem + "_"@ + dec(seen)
    }
}

/// A list has a lane.
pub open spec fn has_lane(lanes: Seq<u8>, lane: u8) -> bool {
    exists|i: int| 0 <= i < lanes.len() && #[trigger] lanes[i] == lane
}

/// A write lands on a component. Which element of an array a write lands on is not known, so it lands on every one.
pub open spec fn lands(slot: Slot, key: (u32, u32), lanes: Seq<u8>, array: bool) -> bool {
    (slot.0 == key.0 && slot.1 == key.1 && has_lane(lanes, slot.2)) || (array && slot.0 == key.0)
}

/// The usage once a write ended every value, among the first `n` waiting, that was computed from what it lands on and
/// that nothing has read.
pub open spec fn ended(
    usage: Seq<Usage>,
    waiting: Seq<(Slot, usize)>,
    key: (u32, u32),
    lanes: Seq<u8>,
    array: bool,
    n: int,
) -> Seq<Usage>
    decreases n,
{
    if n <= 0 {
        usage
    } else {
        let before = ended(usage, waiting, key, lanes, array, n - 1);
        let (slot, id) = waiting[n - 1];
        if id < before.len() && lands(slot, key, lanes, array) && before[id as int].reads == 0 {
            before.update(id as int, Usage { stale: true, ..before[id as int] })
        } else {
            before
        }
    }
}

/// A value waits on each component it reads.
pub open spec fn waits(reads: Seq<Slot>, id: usize) -> Seq<(Slot, usize)> {
    Seq::new(reads.len(), |i: int| (reads[i], id))
}

/// A value lands in each component it writes.
pub open spec fn landings(key: (u32, u32), lanes: Seq<u8>, id: usize) -> Seq<Cell> {
    Seq::new(lanes.len(), |i: int| Cell { key, lane: lanes[i] % 4, id, position: i as u8 })
}

/// What a value with a name of its own is declared as.
pub open spec fn local_kind(domain: Domain) -> Seq<char> {
    match domain {
        Domain::Int => "int"@,
        Domain::Bool => "bool"@,
        _ => "uint"@,
    }
}

/// The walk with a value written down. A register is declared as floats, so an integer value that has to go into one
/// goes in as the bits it is rather than being converted to the nearest float and back. A value with a name of its own
/// is simply declared as what it is, and never reached the register it was named after, so it says nothing about what
/// is there.
pub open spec fn written_down(s: SceneModel, w: WalkModel, def: DefModel, base: Seq<char>, depth: nat) -> WalkModel {
    if def.local {
        lined(
            w,
            depth,
            sized_text(local_kind(def.domain), def.lanes.len()) + " "@ + def.base + " = "@ + rendered(def.expr, 1)
                + ";"@,
        )
    } else {
        let stored = if def.domain == Domain::Int || def.domain == Domain::Uint {
            simplified(
                call_model("asfloat"@, seq![def.expr], width(def.expr) as usize),
                s.reading == Reading::Exact,
            )
        } else {
            def.expr
        };
        WalkModel {
            out: w.out.push(indent(depth) + (target_text(base, def.lanes) + " = "@ + rendered(stored, 1) + ";"@)),
            emitted: w.emitted.push(Some(EmittedModel { depth, base, lanes: def.lanes, expr: stored })),
            ..w
        }
    }
}

/// The walk once a register started over at a value, where it does. It goes by a new name from this line on.
pub open spec fn started_over(s: SceneModel, w: WalkModel, key: (u32, u32)) -> WalkModel {
    if flag(s.splits, w.defs.len() as int) {
        let versions = w.versions.push(key);
        WalkModel { versions, renamed: w.renamed.push(spelling(versions, key.1)), ..w }
    } else {
        w
    }
}

/// The walk once a value arrived at its destination, before it is written down.
pub open spec fn arrived(w: WalkModel, def: DefModel, dest: OperandModel) -> WalkModel {
    let id = w.defs.len() as usize;
    WalkModel {
        defs: w.defs.push(def),
        usage: ended(
            w.usage.push(unused()),
            w.waiting,
            def.key,
            def.lanes,
            dest.reg_type == RegisterType::IndexableTemp,
            w.waiting.len() as int,
        ),
        waiting: w.waiting + waits(def.reads, id),
        cells: if followed(dest.reg_type) {
            w.cells + landings(def.key, def.lanes, id)
        } else {
            w.cells
        },
        ..w
    }
}

/// The walk once a value was recorded against its destination, and written down unless it can be folded into whatever
/// reads it.
///
/// Anything the walk cannot follow component by component has to be written down: a shader output because the pipeline
/// reads it, an indexable array because a later read may not name a component this ever saw.
pub open spec fn defined(
    s: SceneModel,
    w: WalkModel,
    dest: OperandModel,
    e: ExprModel,
    domain: Domain,
    reads: Seq<Slot>,
    saturate: bool,
    depth: nat,
) -> WalkModel {
    if dest.reg_type == RegisterType::Null {
        w
    } else {
        let id = w.defs.len() as int;
        let key = (dest.reg_type.raw(), index_of(dest));
        let lanes = written_lanes(dest);
        let (named, r) = register(s, started_over(s, w, key), dest, lanes);
        let base = base_of(r.expr);
        let local = flag(s.localised, id);
        let stem = base + "_"@ + lane_letters(lanes);
        let issued = if local {
            named.issued.push(stem)
        } else {
            named.issued
        };
        let (value, kind) = taken_by(s, dest, finished(s, id, e, saturate), domain);
        let def = DefModel {
            base: if local {
                own_name(issued, stem)
            } else {
                base
            },
            key,
            lanes,
            expr: value,
            domain: kind,
            reads,
            block: w.block,
            fixed: dest.reg_type != RegisterType::Temp,
            local,
            looped: w.looped,
        };
        let there = arrived(WalkModel { issued, ..named }, def, dest);
        if flag(s.folded, id) {
            there
        } else {
            written_down(s, there, def, base, depth)
        }
    }
}

/// The test an `if`, `discard` or conditional break is taken on.
///
/// The machine spells an unconditional discard as a test against all-bits-set, which is its `true`.
pub open spec fn condition(s: SceneModel, w: WalkModel, at: int) -> (WalkModel, Seq<char>) {
    if at < 0 || at >= s.instructions.len() || s.instructions[at].kind.operands().len() == 0 {
        (w, "true"@)
    } else {
        let i = s.instructions[at];
        let (after, r) = read(s, w, i.kind.operands()[0], seq![0u8]);
        match r.expr {
            ExprModel::Literal { bits, .. } => (
                after,
                if (bits.len() > 0 && bits[0] != 0) == i.test_nonzero {
                    "true"@
                } else {
                    "false"@
                },
            ),
            _ => {
                let test = coerced(r.expr, r.domain, Domain::Bool);
                (
                    after,
                    if i.test_nonzero {
                        rendered(test, 1)
                    } else {
                        rendered(unary_model("!"@, test), 1)
                    },
                )
            },
        }
    }
}

/// What the sources of an instruction gave, from an operand on.
#[verifier::ext_equal]
pub struct ReadModel {
    pub sources: Seq<(ExprModel, Domain)>,
    pub reads: Seq<Slot>,
}

/// The operands from one to another, read one behind the other.
pub open spec fn read_all(
    s: SceneModel,
    w: WalkModel,
    operands: Seq<OperandModel>,
    lanes: Seq<u8>,
    from: int,
    to: int,
) -> (WalkModel, ReadModel)
    decreases to - from,
{
    if to <= from {
        (w, ReadModel { sources: Seq::empty(), reads: Seq::empty() })
    } else {
        let (before, held) = read_all(s, w, operands, lanes, from, to - 1);
        let (after, r) = read(s, before, operands[to - 1], lanes);
        (
            after,
            ReadModel { sources: held.sources.push((r.expr, r.domain)), reads: held.reads + r.reads },
        )
    }
}

/// The instruction as the disassembler writes it, for anything not understood well enough to say more than the machine
/// did. Keeping the line is what stops a reading from quietly losing an instruction.
pub open spec fn verbatim(s: SceneModel, w: WalkModel, at: int, depth: nat) -> WalkModel {
    lined(w, depth, "// "@ + instruction_text(s.instructions[at]))
}

/// A value comes behind one of a list.
pub open spec fn another_behind(values: Seq<Option<(ExprModel, Domain)>>, at: int) -> bool {
    exists|j: int| at < j < values.len() && (#[trigger] values[j]) is Some
}

/// The usage once a write ended every value, among the first `n` waiting, that the instruction at hand was the last to
/// read and that was computed from what it lands on.
pub open spec fn overtaken(
    usage: Seq<Usage>,
    waiting: Seq<(Slot, usize)>,
    key: (u32, u32),
    lanes: Seq<u8>,
    arriving: usize,
    n: int,
) -> Seq<Usage>
    decreases n,
{
    if n <= 0 {
        usage
    } else {
        let before = overtaken(usage, waiting, key, lanes, arriving, n - 1);
        let (slot, id) = waiting[n - 1];
        if id < before.len() && lands(slot, key, lanes, false) && before[id as int].last == arriving {
            before.update(id as int, Usage { stale: true, ..before[id as int] })
        } else {
            before
        }
    }
}

/// The walk once the first `n` destinations of an instruction, all but the last, had their say in what it read. Each
/// destination is written out a line at a time, and every line carries whatever was folded into the instruction. So a
/// value it read has to survive the earlier line's write to still be there for the later one.
pub open spec fn crossed(
    w: WalkModel,
    operands: Seq<OperandModel>,
    values: Seq<Option<(ExprModel, Domain)>>,
    n: int,
) -> WalkModel
    decreases n,
{
    if n <= 0 {
        w
    } else {
        let before = crossed(w, operands, values, n - 1);
        if values[n - 1] is Some && n - 1 < operands.len() && another_behind(values, n - 1) {
            let dest = operands[n - 1];
            WalkModel {
                usage: overtaken(
                    before.usage,
                    before.waiting,
                    (dest.reg_type.raw(), index_of(dest)),
                    written_lanes(dest),
                    before.defs.len() as usize,
                    before.waiting.len() as int,
                ),
                ..before
            }
        } else {
            before
        }
    }
}

/// A value narrowed to the components the instruction actually writes, where it was built whole.
pub open spec fn narrowed(opcode: Opcode, dest: OperandModel, e: ExprModel) -> ExprModel {
    if lines_up(opcode) {
        e
    } else {
        selected(e, written_lanes(dest))
    }
}

/// The walk once the first `n` values of an instruction went to their destinations.
pub open spec fn defined_all(
    s: SceneModel,
    w: WalkModel,
    i: InstructionModel,
    values: Seq<Option<(ExprModel, Domain)>>,
    reads: Seq<Slot>,
    depth: nat,
    n: int,
) -> WalkModel
    decreases n,
{
    if n <= 0 {
        w
    } else {
        let before = defined_all(s, w, i, values, reads, depth, n - 1);
        match values[n - 1] {
            Some((e, domain)) if n - 1 < i.kind.operands().len() => {
                let dest = i.kind.operands()[n - 1];
                defined(s, before, dest, narrowed(i.opcode, dest, e), domain, reads, i.saturate, depth)
            },
            _ => before,
        }
    }
}

/// The lanes an instruction reads its sources at.
pub open spec fn source_lanes(opcode: Opcode, lanes: Seq<u8>) -> Seq<u8> {
    if lines_up(opcode) {
        lanes
    } else {
        first_lanes_of(4)
    }
}

/// The walk with the function an instruction needs.
pub open spec fn helped(w: WalkModel, helper: Option<Seq<char>>) -> WalkModel {
    match helper {
        Some(text) => WalkModel { helpers: placed(w.helpers, text, 0), ..w },
        None => w,
    }
}

/// The walk past an instruction that computes something.
pub open spec fn assigned(s: SceneModel, w: WalkModel, at: int, depth: nat) -> WalkModel {
    let i = s.instructions[at];
    let operands = i.kind.operands();
    let count = destination_count(i.opcode) as int;
    if count == 0 || operands.len() <= count {
        verbatim(s, w, at, depth)
    } else {
        let lanes = lanes_written(operands, count, 0);
        let (after, held) = read_all(s, w, operands, source_lanes(i.opcode, lanes), count, operands.len() as int);
        let r = evaluated(s.names, s.instructions, i.opcode, held.sources, operands, count, lanes.len() as usize);
        let ready = helped(after, r.helper);
        if r.values.len() == 0 {
            verbatim(s, ready, at, depth)
        } else {
            defined_all(
                s,
                crossed(ready, operands, r.values, r.values.len() as int),
                i,
                r.values,
                held.reads,
                depth,
                r.values.len() as int,
            )
        }
    }
}

/// What an instruction that leaves something does.
pub open spec fn action(opcode: Opcode, hands_back: bool) -> Seq<char> {
    match opcode {
        Opcode::Discard => "discard"@,
        Opcode::Break | Opcode::Breakc => "break"@,
        Opcode::Continue | Opcode::Continuec => "continue"@,
        _ => if hands_back {
            "return output"@
        } else {
            "return"@
        },
    }
}

/// The walk past an instruction.
pub open spec fn instruction(s: SceneModel, w: WalkModel, at: int, depth: nat) -> WalkModel {
    if at < 0 || at >= s.instructions.len() || !(s.instructions[at].kind is Generic) {
        w
    } else {
        let opcode = s.instructions[at].opcode;
        match opcode {
            Opcode::Ret | Opcode::Break | Opcode::Continue => lined(w, depth, action(opcode, s.hands_back) + ";"@),
            Opcode::Nop => w,
            Opcode::Discard | Opcode::Breakc | Opcode::Continuec | Opcode::Retc => {
                let (after, test) = condition(s, w, at);
                // A condition that is always one thing is not a condition.
                if test == "true"@ {
                    lined(after, depth, action(opcode, s.hands_back) + ";"@)
                } else if test == "false"@ {
                    after
                } else {
                    lined(after, depth, "if ("@ + test + ") "@ + action(opcode, s.hands_back) + ";"@)
                }
            },
            _ => assigned(s, w, at, depth),
        }
    }
}

/// The walk through a block of its own.
pub open spec fn nested(s: SceneModel, w: WalkModel, tree: Seq<StmtModel>, depth: nat) -> WalkModel
    decreases tree, tree.len() + 1,
{
    let inner = body(
        s,
        WalkModel { block: (w.blocks + 1) as usize, blocks: (w.blocks + 1) as usize, ..w },
        tree,
        tree.len() as int,
        depth,
    );
    WalkModel { block: w.block, ..inner }
}

/// The walk past a statement.
pub open spec fn statement(s: SceneModel, w: WalkModel, stmt: StmtModel, depth: nat) -> WalkModel
    decreases stmt, 0nat,
{
    match stmt {
        StmtModel::Op(at) => instruction(s, w, at, depth),
        StmtModel::If { at, yes, els } => {
            let (tested, test) = condition(s, w, at);
            let opened = lined(lined(tested, depth, "if ("@ + test + ")"@), depth, "{"@);
            let first = nested(s, opened, yes, depth + 1);
            let second = if els.len() == 0 {
                first
            } else {
                nested(
                    s,
                    lined(lined(lined(first, depth, "}"@), depth, "else"@), depth, "{"@),
                    els,
                    depth + 1,
                )
            };
            lined(second, depth, "}"@)
        },
        StmtModel::Loop(inner) => {
            let opened = lined(lined(w, depth, "while (true)"@), depth, "{"@);
            let turned = nested(s, WalkModel { looped: true, ..opened }, inner, depth + 1);
            lined(WalkModel { looped: w.looped, ..turned }, depth, "}"@)
        },
    }
}

/// The walk past the first `n` statements of a list.
pub open spec fn body(s: SceneModel, w: WalkModel, tree: Seq<StmtModel>, n: int, depth: nat) -> WalkModel
    decreases tree, n,
{
    if n <= 0 || n > tree.len() {
        w
    } else {
        statement(s, body(s, w, tree, n - 1, depth), tree[n - 1], depth)
    }
}

/// A whole walk.
pub open spec fn walked(s: SceneModel, tree: Seq<StmtModel>, depth: nat) -> WalkModel {
    body(s, fresh(), tree, tree.len() as int, depth)
}

/// A run-time read of a buffer looked like an element of it, and none did not.
pub open spec fn reached(votes: Seq<(u16, bool)>, slot: u16) -> bool {
    (exists|i: int| 0 <= i < votes.len() && (#[trigger] votes[i]).0 == slot) && (forall|i: int|
        0 <= i < votes.len() && (#[trigger] votes[i]).0 == slot ==> votes[i].1)
}

/// A value picked an element of a buffer, and every one that did holds an element.
pub open spec fn picked_by_elements(indexers: Seq<(u16, usize)>, elemental: Seq<u32>, slot: u16) -> bool {
    (exists|i: int| 0 <= i < indexers.len() && (#[trigger] indexers[i]).0 == slot) && (forall|i: int|
        0 <= i < indexers.len() && (#[trigger] indexers[i]).0 == slot ==> indexers[i].1 < elemental.len()
            && elemental[indexers[i].1 as int] > 0)
}

/// A buffer can be read as an array of structs. It can be read that way only where every one of its run-time reads came
/// out that way, since it is declared once and a register array and a struct array are not the same declaration.
pub open spec fn is_array(s: SceneModel, w: WalkModel, elemental: Seq<u32>, slot: u16) -> bool {
    reached(w.votes, slot) && element_of(s, slot) is Some && picked_by_elements(w.indexers, elemental, slot)
}

/// The buffers, among those of the first `n` run-time reads, that can be read as arrays of structs.
pub open spec fn arrays_in(s: SceneModel, w: WalkModel, elemental: Seq<u32>, n: int) -> Seq<u16>
    decreases n,
{
    if n <= 0 {
        Seq::empty()
    } else {
        let before = arrays_in(s, w, elemental, n - 1);
        let slot = w.votes[n - 1].0;
        if !before.contains(slot) && is_array(s, w, elemental, slot) {
            before.push(slot)
        } else {
            before
        }
    }
}

/// What a walk keeps up: every value has its usage and every line what it assigns, what a component holds is a value,
/// and nothing is counted more often than it was seen.
pub open spec fn sound(w: WalkModel) -> bool {
    &&& w.usage.len() == w.defs.len()
    &&& w.out.len() == w.emitted.len()
    &&& w.blocks <= w.out.len()
    &&& forall|i: int| 0 <= i < w.cells.len() ==> (#[trigger] w.cells[i]).id < w.defs.len()
    &&& forall|i: int|
        0 <= i < w.usage.len() ==> (#[trigger] w.usage[i]).reads <= w.touches.len() && w.usage[i].indexed
            <= w.indexers.len()
}

/// What a walk goes by that knows nothing about what moves.
pub open spec fn counting(s: SceneModel) -> SceneModel {
    SceneModel { folded: Seq::empty(), localised: Seq::empty(), splits: Seq::empty(), cautious: true, ..s }
}

/// What a walk goes by once a walk that counted has settled which values hold elements.
pub open spec fn informed(s: SceneModel, counted: WalkModel) -> SceneModel {
    let elemental = element_sizes(counted.defs, counted.usage);
    SceneModel {
        elemental,
        arrays: arrays_in(s, counted, elemental, counted.votes.len() as int),
        ..s
    }
}

/// How many times to go round looking for a reading that describes itself. Two is the common answer and three is rare;
/// past that it is oscillating rather than settling.
pub const ROUNDS: usize = 4;

/// The walk whose own decisions are the ones it went by, looked for `left` times from a walk before and what it decided.
///
/// What a value depends on is what its text names, and a value that moves brings what it names along, so which values
/// move decides which are free to, and that only settles by going round. Both decisions have to come back unchanged:
/// folding moves domains, and domains decide which values take a name of their own. Where a register starts over rests
/// on which components are written and read, so that is worked out from the walk before.
pub open spec fn settled(
    s: SceneModel,
    tree: Seq<StmtModel>,
    depth: nat,
    before: WalkModel,
    folded: Seq<bool>,
    localised: Seq<bool>,
    left: nat,
) -> Option<WalkModel>
    decreases left,
{
    if left == 0 {
        None
    } else {
        let scene = SceneModel {
            folded,
            localised,
            splits: fresh_starts(before.defs, before.touches, folded, localised),
            cautious: false,
            ..s
        };
        let w = walked(scene, tree, depth);
        let again = moving(w.defs, w.usage);
        let held = apart(w.defs, w.usage);
        if again == folded && held == localised {
            Some(w)
        } else {
            settled(s, tree, depth, w, again, held, (left - 1) as nat)
        }
    }
}

/// Two walks read every value as often.
pub open spec fn read_alike(a: Seq<Usage>, b: Seq<Usage>) -> bool {
    a.len() == b.len() && forall|i: int| 0 <= i < a.len() ==> (#[trigger] a[i]).reads == b[i].reads
}

/// The walk a reading is made from: one that describes itself, or the careful one where none does, or the counting one
/// where that read some value another number of times.
pub open spec fn chosen_walk(s: SceneModel, tree: Seq<StmtModel>, depth: nat) -> (SceneModel, WalkModel) {
    let counted = walked(counting(s), tree, depth);
    let known = informed(s, counted);
    let careful = moving(counted.defs, counted.usage);
    let guarded = apart(counted.defs, counted.usage);
    let w = match settled(known, tree, depth, counted, careful, guarded, ROUNDS as nat) {
        Some(w) => w,
        // Nothing starts over, since the only split points worked out are the ones belonging to the reading just
        // rejected. A register under its own name always reads correctly; it only reads worse.
        None => walked(
            SceneModel { folded: careful, localised: guarded, splits: Seq::empty(), cautious: true, ..known },
            tree,
            depth,
        ),
    };
    if read_alike(w.usage, counted.usage) {
        (known, w)
    } else {
        (known, walked(counting(known), tree, depth))
    }
}

/// What reading a shader's body gives.
pub struct BodyModel {
    pub out: Seq<Seq<char>>,
    pub renamed: Seq<Seq<char>>,
    pub helpers: Seq<Seq<char>>,
    pub arrays: Seq<u16>,
}

/// The body of a shader, walked until the reading it produces is the one its own decisions describe.
///
/// Recovering a transform sums the rows in the order the matrix has them rather than the order the shader wrote them, so
/// an exact reading leaves the lines as they are. Putting component writes back together changes no arithmetic, so that
/// stands either way.
pub open spec fn body_read(s: SceneModel, tree: Seq<StmtModel>, depth: nat) -> BodyModel {
    match s.reading {
        Reading::Plain => {
            let w = walked(counting(s), tree, depth);
            BodyModel { out: w.out, renamed: w.renamed, helpers: w.helpers, arrays: s.arrays }
        },
        Reading::Exact => {
            let (known, w) = chosen_walk(s, tree, depth);
            BodyModel {
                out: coalesced(w.out, w.emitted),
                renamed: w.renamed,
                helpers: w.helpers,
                arrays: known.arrays,
            }
        },
        Reading::Folded => {
            let (known, w) = chosen_walk(s, tree, depth);
            let lines = folded(s.names, w.out, w.emitted, 0);
            BodyModel {
                out: coalesced(lines.out, lines.lines),
                renamed: w.renamed,
                helpers: w.helpers,
                arrays: known.arrays,
            }
        },
    }
}

} // verus!
