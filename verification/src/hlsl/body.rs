//! Expression recovery: the register traffic of a shader folded back into statements.
//!
//! The decision whether a value folds into its reader needs to know how it gets used, which is only clear later, so the
//! walk runs more than once over the same bookkeeping. It runs more than twice because the decisions feed each other:
//! what a value depends on is what its text names, and its text names a register wherever the value behind it stayed in
//! one, so which values move decides which are free to move. That is gone round until a reading comes back describing
//! itself.
use super::expr::{
    call1, coerce, constant, copy_bytes, letters, models, named, pick_words, unary, vector, width, Domain, Expr,
    ExprModel,
};
use super::fetch::{evaluate, find_span};
use super::idiom::simplify;
use super::machine::{
    components, counted_lanes, destinations, elementwise, first_lanes, index_or_zero, sized, source_models, value_model,
    value_models, written,
};
use super::matrix::{coalesce, fold, lemma_folded_lengths, line_model, line_models, target, texts, transform, Emitted};
use super::names::{domain, part_views, Names};
use super::structure::{height, lemma_block_model, own_height, stmt_models, Stmt, StmtModel};
use super::tidy::place;
use super::value::{
    decide, def_models, elements, flagged, fresh_starts, merge, splits, unused, without_stride, Def, Slot, Touch, Usage,
};
use super::walk::{
    action, another_behind, arrived, arrays_in, assigned, base_of, body_read, chosen_walk, computed_index, condition,
    constant_bits, constant_read, counting, crossed, defined, defined_all, element_of, element_read, ended, finished,
    fixed_index, fresh, gathered, has_lane, index, informed, inside_of, instruction, landings, lands, lined, local_kind,
    mixed, modified, nested, overtaken, own_name, owned_by, owner_of, owners, picked_by_elements, plainly, positions,
    reached, read, read_all, read_alike, read_once, register, register_read, register_text, settled, slots_of,
    sole_owner, sound, spelling, started_over, statement, strided, taken_by, times_issued, touched, value_read,
    verbatim, version_of, waits, walked, wanted, written_down, BodyModel, Cell, IndexedModel, ReadModel, SceneModel,
    SourcedModel, WalkModel, ROUNDS,
};
use super::words::indentation;
use super::Reading;
use crate::shex::fmt::format_instruction;
use crate::shex::ir::{
    instruction_models, operand_models, IndexModel, Instruction, InstructionKind, Operand, OperandIndex, Program,
    RegisterType,
};
use crate::shex::opcodes::Opcode;
use crate::text::{cat2, cat3, cat4, cat5, cat6, dec, decimal, decimal_next, same};
use vstd::prelude::*;

verus! {

/// What the walk goes by that earlier walks decided.
pub struct Plan {
    /// Which values go to their readers. None on the counting walk, which writes every value down.
    pub folded: Vec<bool>,
    /// Which values get a name of their own instead of a register.
    pub localised: Vec<bool>,
    /// Which values start their register over under a name of its own.
    pub splits: Vec<bool>,
    /// The element size of each value that holds an element rather than the register it starts at.
    pub elemental: Vec<u32>,
    /// Buffers being read as arrays of structs rather than as arrays of registers.
    pub arrays: Vec<u16>,
    /// Set while nothing is known about what moves, so every value is taken to depend on everything behind it.
    pub cautious: bool,
}

/// What a walk goes by.
pub struct Scene<'a> {
    pub instructions: &'a Vec<Instruction>,
    pub names: &'a Names,
    /// Constant buffers declared as an array of registers rather than as named fields.
    pub computed: &'a Vec<u16>,
    pub reading: Reading,
    /// Whether the shader hands a value back, which decides what a return says.
    pub hands_back: bool,
    pub plan: Plan,
}

impl<'a> Scene<'a> {
    /// What the walk goes by.
    pub open spec fn view(&self) -> SceneModel {
        SceneModel {
            instructions: instruction_models(self.instructions@),
            names: *self.names,
            computed: self.computed@,
            reading: self.reading,
            hands_back: self.hands_back,
            folded: self.plan.folded@,
            localised: self.plan.localised@,
            splits: self.plan.splits@,
            elemental: self.plan.elemental@,
            arrays: self.plan.arrays@,
            cautious: self.plan.cautious,
        }
    }
}

/// What a walk remembers.
pub struct Walk {
    pub cells: Vec<Cell>,
    pub defs: Vec<Def>,
    pub usage: Vec<Usage>,
    /// Values by the register components they read.
    pub waiting: Vec<(Slot, usize)>,
    /// Every register component read, and when.
    pub touches: Vec<Touch>,
    /// The registers that started over, once for each time.
    pub versions: Vec<(u32, u32)>,
    /// The names those changes took, in the order the body introduces them.
    pub renamed: Vec<String>,
    /// Whether the walk is inside a loop.
    pub looped: bool,
    /// Names handed out, since two values in one register cannot share one.
    pub issued: Vec<String>,
    /// Whether each run-time read of a buffer looked like an element of it and a register within that element.
    pub votes: Vec<(u16, bool)>,
    /// The values used to pick an element of each buffer.
    pub indexers: Vec<(u16, usize)>,
    /// Functions the body needs that HLSL does not provide, in order.
    pub helpers: Vec<String>,
    /// What each line assigns, where it assigns anything.
    pub emitted: Vec<Option<Emitted>>,
    pub block: usize,
    pub blocks: usize,
    /// The statements written so far, one per line and already indented.
    pub out: Vec<String>,
}

impl Walk {
    /// What the walk remembers.
    pub open spec fn view(&self) -> WalkModel {
        WalkModel {
            cells: self.cells@,
            defs: def_models(self.defs@),
            usage: self.usage@,
            waiting: self.waiting@,
            touches: self.touches@,
            versions: self.versions@,
            renamed: texts(self.renamed@),
            looped: self.looped,
            issued: texts(self.issued@),
            votes: self.votes@,
            indexers: self.indexers@,
            helpers: texts(self.helpers@),
            emitted: line_models(self.emitted@),
            block: self.block,
            blocks: self.blocks,
            out: texts(self.out@),
        }
    }

    /// A walk that has not started.
    pub fn new() -> (r: Self)
        ensures
            r@ == fresh(),
            sound(r@),
    {
        let r = Walk {
            cells: Vec::new(),
            defs: Vec::new(),
            usage: Vec::new(),
            waiting: Vec::new(),
            touches: Vec::new(),
            versions: Vec::new(),
            renamed: Vec::new(),
            looped: false,
            issued: Vec::new(),
            votes: Vec::new(),
            indexers: Vec::new(),
            helpers: Vec::new(),
            emitted: Vec::new(),
            block: 0,
            blocks: 0,
            out: Vec::new(),
        };
        proof {
            assert(r@ =~= fresh());
        }
        r
    }
}

/// A value read out of the machine, and what reading it depended on.
pub struct Sourced {
    pub expr: Expr,
    pub domain: Domain,
    pub reads: Vec<Slot>,
    /// The value read, where the read came down to a single one.
    pub owner: Option<usize>,
}

impl Sourced {
    /// What the read gave.
    pub open spec fn view(&self) -> SourcedModel {
        SourcedModel { expr: self.expr@, domain: self.domain, reads: self.reads@, owner: self.owner }
    }
}

/// A register index, as far as it is known, its text, and what reading it depended on.
pub struct Indexed {
    pub register: Option<u32>,
    pub text: String,
    /// The text of what is computed, without the number added to it.
    pub picked: String,
    pub reads: Vec<Slot>,
    /// The value computed, where the read came down to a single one.
    pub owner: Option<usize>,
}

impl Indexed {
    /// What the index holds.
    pub open spec fn view(&self) -> IndexedModel {
        IndexedModel {
            register: self.register,
            text: self.text@,
            picked: self.picked@,
            reads: self.reads@,
            owner: self.owner,
        }
    }
}

/// What a read leaves as it was.
pub open spec fn only_read(before: WalkModel, after: WalkModel) -> bool {
    &&& after.cells == before.cells
    &&& after.defs == before.defs
    &&& after.waiting == before.waiting
    &&& after.versions == before.versions
    &&& after.renamed == before.renamed
    &&& after.looped == before.looped
    &&& after.issued == before.issued
    &&& after.helpers == before.helpers
    &&& after.emitted == before.emitted
    &&& after.block == before.block
    &&& after.blocks == before.blocks
    &&& after.out == before.out
}

/// The owner is a value that was made.
pub open spec fn made(owner: Option<usize>, w: WalkModel) -> bool {
    match owner {
        Some(id) => id < w.defs.len(),
        None => true,
    }
}

/// The counts of two usages are the same.
pub open spec fn same_counts(a: Seq<Usage>, b: Seq<Usage>) -> bool {
    a.len() == b.len() && forall|i: int|
        0 <= i < a.len() ==> (#[trigger] a[i]).reads == b[i].reads && a[i].indexed == b[i].indexed
}

proof fn lemma_owner_made(cells: Seq<Cell>, key: (u32, u32), lane: u8, n: int, bound: nat)
    requires
        0 <= n <= cells.len(),
        forall|i: int| 0 <= i < cells.len() ==> (#[trigger] cells[i]).id < bound,
    ensures
        match owner_of(cells, key, lane, n) {
            Some((id, _)) => id < bound,
            None => true,
        },
    decreases n,
{
    if n > 0 {
        assert(cells[n - 1].id < bound);
        lemma_owner_made(cells, key, lane, n - 1, bound);
    }
}

proof fn lemma_mixed(usage: Seq<Usage>, held: Seq<Option<(usize, u8)>>, n: int)
    requires
        0 <= n <= held.len(),
        forall|i: int|
            0 <= i < held.len() ==> match #[trigger] held[i] {
                Some((id, _)) => id < usage.len(),
                None => true,
            },
    ensures
        same_counts(mixed(usage, held, n), usage),
    decreases n,
{
    if n > 0 {
        lemma_mixed(usage, held, n - 1);
    }
}

proof fn lemma_ended(
    usage: Seq<Usage>,
    waiting: Seq<(Slot, usize)>,
    key: (u32, u32),
    lanes: Seq<u8>,
    array: bool,
    n: int,
)
    ensures
        same_counts(ended(usage, waiting, key, lanes, array, n), usage),
    decreases n,
{
    if n > 0 {
        lemma_ended(usage, waiting, key, lanes, array, n - 1);
    }
}

proof fn lemma_overtaken(
    usage: Seq<Usage>,
    waiting: Seq<(Slot, usize)>,
    key: (u32, u32),
    lanes: Seq<u8>,
    arriving: usize,
    n: int,
)
    ensures
        same_counts(overtaken(usage, waiting, key, lanes, arriving, n), usage),
    decreases n,
{
    if n > 0 {
        lemma_overtaken(usage, waiting, key, lanes, arriving, n - 1);
    }
}

fn owner_at(cells: &Vec<Cell>, key: (u32, u32), lane: u8) -> (r: Option<(usize, u8)>)
    ensures
        r == owner_of(cells@, key, lane, cells@.len() as int),
{
    let mut n: usize = cells.len();
    while n > 0
        invariant
            n <= cells@.len(),
            owner_of(cells@, key, lane, cells@.len() as int) == owner_of(cells@, key, lane, n as int),
        decreases n,
    {
        let held = cells[n - 1];
        if held.key.0 == key.0 && held.key.1 == key.1 && held.lane == lane % 4 {
            assert(cells@[n - 1].key == key);
            return Some((held.id, held.position));
        }
        n = n - 1;
    }
    None
}

fn owners_at(cells: &Vec<Cell>, key: (u32, u32), comps: &[u8]) -> (r: Vec<Option<(usize, u8)>>)
    ensures
        r@ == owners(cells@, key, comps@),
{
    let mut out: Vec<Option<(usize, u8)>> = Vec::new();
    let mut i: usize = 0;
    while i < comps.len()
        invariant
            i <= comps@.len(),
            out@.len() == i,
            forall|k: int| 0 <= k < i ==> #[trigger] out@[k] == owner_of(cells@, key, comps@[k], cells@.len() as int),
        decreases comps@.len() - i,
    {
        out.push(owner_at(cells, key, comps[i]));
        i = i + 1;
    }
    proof {
        assert(out@ =~= owners(cells@, key, comps@));
    }
    out
}

fn sole(held: &Vec<Option<(usize, u8)>>) -> (r: Option<usize>)
    ensures
        r == sole_owner(held@),
{
    if held.len() == 0 {
        return None;
    }
    match held[0] {
        None => None,
        Some((id, _)) => {
            let mut i: usize = 0;
            while i < held.len()
                invariant
                    i <= held@.len(),
                    0 < held@.len(),
                    held@[0] is Some,
                    (held@[0]->0).0 == id,
                    forall|k: int| 0 <= k < i ==> owned_by(#[trigger] held@[k], id),
                decreases held@.len() - i,
            {
                let same_one = match held[i] {
                    Some((other, _)) => other == id,
                    None => false,
                };
                if !same_one {
                    assert(!owned_by(held@[i as int], id));
                    return None;
                }
                i = i + 1;
            }
            Some(id)
        },
    }
}

fn positions_at(held: &Vec<Option<(usize, u8)>>) -> (r: Vec<u8>)
    requires
        sole_owner(held@) is Some,
    ensures
        r@ == positions(held@),
{
    let mut out: Vec<u8> = Vec::new();
    let mut i: usize = 0;
    while i < held.len()
        invariant
            i <= held@.len(),
            sole_owner(held@) is Some,
            out@.len() == i,
            forall|k: int| 0 <= k < i ==> #[trigger] out@[k] == (held@[k]->0).1,
        decreases held@.len() - i,
    {
        assert(owned_by(held@[i as int], sole_owner(held@)->0));
        if let Some((_, position)) = held[i] {
            out.push(position);
        }
        i = i + 1;
    }
    proof {
        assert(out@ =~= positions(held@));
    }
    out
}

fn slots(key: (u32, u32), comps: &[u8]) -> (r: Vec<Slot>)
    ensures
        r@ == slots_of(key, comps@),
{
    let mut out: Vec<Slot> = Vec::new();
    let mut i: usize = 0;
    while i < comps.len()
        invariant
            i <= comps@.len(),
            out@.len() == i,
            forall|k: int| 0 <= k < i ==> #[trigger] out@[k] == (key.0, key.1, comps@[k] % 4),
        decreases comps@.len() - i,
    {
        out.push((key.0, key.1, comps[i] % 4));
        i = i + 1;
    }
    proof {
        assert(out@ =~= slots_of(key, comps@));
    }
    out
}

fn touch_all(touches: &mut Vec<Touch>, key: (u32, u32), comps: &[u8], at: usize)
    ensures
        final(touches)@ == old(touches)@ + touched(key, comps@, at),
{
    let mut i: usize = 0;
    while i < comps.len()
        invariant
            i <= comps@.len(),
            touches@ == old(touches)@ + touched(key, comps@, at).take(i as int),
        decreases comps@.len() - i,
    {
        touches.push((key, comps[i] % 4, at));
        proof {
            assert(touches@ =~= old(touches)@ + touched(key, comps@, at).take(i + 1));
        }
        i = i + 1;
    }
    proof {
        assert(touched(key, comps@, at).take(i as int) =~= touched(key, comps@, at));
    }
}

fn mix(usage: &mut Vec<Usage>, held: &Vec<Option<(usize, u8)>>)
    requires
        forall|i: int|
            0 <= i < held@.len() ==> match #[trigger] held@[i] {
                Some((id, _)) => id < old(usage)@.len(),
                None => true,
            },
    ensures
        final(usage)@ == mixed(old(usage)@, held@, held@.len() as int),
{
    let mut i: usize = 0;
    while i < held.len()
        invariant
            i <= held@.len(),
            usage@ == mixed(old(usage)@, held@, i as int),
            usage@.len() == old(usage)@.len(),
            forall|k: int|
                0 <= k < held@.len() ==> match #[trigger] held@[k] {
                    Some((id, _)) => id < old(usage)@.len(),
                    None => true,
                },
        decreases held@.len() - i,
    {
        if let Some((id, _)) = held[i] {
            assert(held@[i as int] == Some((id, (held@[i as int]->0).1)));
            let mut one = usage[id];
            one.mixed = true;
            usage.set(id, one);
        }
        i = i + 1;
    }
}

/// An expression with the negate and absolute-value modifiers an operand carries.
pub fn modify(operand: &Operand, e: Expr) -> (r: Expr)
    ensures
        r@ == modified(operand@, e@),
{
    let inner = if operand.abs {
        let wide = e.width();
        call1("abs", e, wide)
    } else {
        e
    };
    if operand.negate {
        unary("-", inner)
    } else {
        inner
    }
}

fn version(versions: &Vec<(u32, u32)>, key: (u32, u32)) -> (r: usize)
    ensures
        r == version_of(versions@, key, versions@.len() as int),
        r <= versions@.len(),
{
    let mut count: usize = 0;
    let mut i: usize = 0;
    while i < versions.len()
        invariant
            count <= i <= versions@.len(),
            count == version_of(versions@, key, i as int),
        decreases versions@.len() - i,
    {
        if versions[i].0 == key.0 && versions[i].1 == key.1 {
            assert(versions@[i as int] == key);
            count = count + 1;
        }
        i = i + 1;
    }
    count
}

/// What a temporary register is called at this point in the body.
pub fn spell(versions: &Vec<(u32, u32)>, index: u32) -> (r: String)
    ensures
        r@ == spelling(versions@, index),
{
    let held = version(versions, (RegisterType::Temp.to_u32(), index));
    let d = decimal(index as u64);
    if held == 0 {
        cat2("r", d.as_str())
    } else {
        let next = decimal_next(held as u64);
        cat4("r", d.as_str(), "_", next.as_str())
    }
}

fn one_base(parts: &Vec<(String, u8)>) -> (r: bool)
    ensures
        r == (parts@.len() > 0 && forall|i: int|
            0 <= i < part_views(parts@).len() ==> (#[trigger] part_views(parts@)[i]).0 == part_views(parts@)[0].0),
{
    let ghost all = part_views(parts@);
    if parts.len() == 0 {
        return false;
    }
    let mut i: usize = 0;
    while i < parts.len()
        invariant
            i <= parts@.len(),
            0 < parts@.len(),
            all == part_views(parts@),
            forall|k: int| 0 <= k < i ==> (#[trigger] all[k]).0 == all[0].0,
        decreases parts@.len() - i,
    {
        assert(all[i as int] == (parts@[i as int].0@, parts@[i as int].1));
        assert(all[0] == (parts@[0].0@, parts@[0].1));
        if !same(parts[i].0.as_str(), parts[0].0.as_str()) {
            return false;
        }
        i = i + 1;
    }
    true
}

/// Components sharing a name come back as one read; the rest are put side by side.
pub fn gather(parts: Vec<(String, u8)>) -> (r: Expr)
    ensures
        r@ == gathered(part_views(parts@)),
{
    let ghost all = part_views(parts@);
    if one_base(&parts) {
        let mut swizzle: Vec<u8> = Vec::new();
        let mut i: usize = 0;
        while i < parts.len()
            invariant
                i <= parts@.len(),
                swizzle@.len() == i,
                forall|k: int| 0 <= k < i ==> #[trigger] swizzle@[k] == parts@[k].1,
            decreases parts@.len() - i,
        {
            swizzle.push(parts[i].1);
            i = i + 1;
        }
        proof {
            assert(swizzle@ =~= Seq::new(all.len(), |i: int| all[i].1));
            assert(all[0].0 == parts@[0].0@);
        }
        named(parts[0].0.clone(), swizzle)
    } else {
        let mut list: Vec<Expr> = Vec::new();
        let mut i: usize = 0;
        while i < parts.len()
            invariant
                i <= parts@.len(),
                list@.len() == i,
                forall|k: int|
                    0 <= k < i ==> (#[trigger] list@[k])@ == (ExprModel::Read {
                        base: parts@[k].0@,
                        swizzle: seq![parts@[k].1],
                    }),
            decreases parts@.len() - i,
        {
            let mut one: Vec<u8> = Vec::new();
            one.push(parts[i].1);
            proof {
                assert(one@ =~= seq![parts@[i as int].1]);
            }
            list.push(named(parts[i].0.clone(), one));
            i = i + 1;
        }
        proof {
            assert(models(list@) =~= Seq::new(
                all.len(),
                |i: int| ExprModel::Read { base: all[i].0, swizzle: seq![all[i].1] },
            ));
        }
        vector(list)
    }
}

fn bits_of(operand: &Operand, comps: &[u8]) -> (r: Vec<u32>)
    ensures
        r@ == constant_bits(operand@.immediate_values, comps@),
{
    let values = operand.immediate_values.as_slice();
    if values.len() == 0 {
        let mut out: Vec<u32> = Vec::new();
        out.push(0);
        proof {
            assert(out@ =~= seq![0u32]);
        }
        return out;
    }
    let taken = pick_words(values, comps);
    if values.len() == 1 || taken.len() == 0 {
        return super::expr::copy_words(values);
    }
    taken
}

pub(crate) fn lists(list: &Vec<u16>, slot: u16) -> (r: bool)
    ensures
        r == list@.contains(slot),
{
    let mut i: usize = 0;
    while i < list.len()
        invariant
            i <= list@.len(),
            forall|k: int| 0 <= k < i ==> #[trigger] list@[k] != slot,
        decreases list@.len() - i,
    {
        if list[i] == slot {
            assert(list@[i as int] == slot);
            return true;
        }
        i = i + 1;
    }
    false
}

/// Registers one element of a buffer takes, where the buffer holds more than one element of a struct whose fields are
/// known.
pub fn element(s: &Scene, slot: u16) -> (r: Option<u32>)
    ensures
        r == element_of(s@, slot),
{
    proof {
        assert(s@.instructions.len() == s.instructions@.len());
    }
    match s.names.constants.get(slot as u32) {
        None => None,
        Some(buffer) => match find_span(s.instructions, slot) {
            None => None,
            Some(span) => {
                let step = buffer.span();
                if step > 0 && span as u64 > step && span as u64 % step == 0 {
                    Some(step as u32)
                } else {
                    None
                }
            },
        },
    }
}

fn inside(step: Option<u32>, operand: &Operand) -> (r: Option<(u32, u32)>)
    ensures
        r == inside_of(step, operand@.indices),
{
    proof {
        assert(operand@.indices.len() == operand.indices@.len());
    }
    if operand.indices.len() < 2 {
        return None;
    }
    proof {
        assert(operand@.indices[1] == operand.indices@[1]@);
    }
    match (step, &operand.indices[1]) {
        (Some(step), OperandIndex::RelativePlusImm(offset, _)) => {
            if *offset < step {
                Some((*offset, step))
            } else {
                None
            }
        },
        (Some(step), OperandIndex::Relative(_)) => Some((0, step)),
        _ => None,
    }
}

fn buffer_name(names: &Names, index: u32) -> (r: String)
    ensures
        r@ == super::walk::buffer_text(*names, index),
{
    match names.constants.get((index as u16) as u32) {
        None => {
            let d = decimal(index as u64);
            cat2("cb", d.as_str())
        },
        Some(buffer) => buffer.title().to_owned(),
    }
}

fn stride_by(w: &mut Walk, slot: u16, owner: Option<usize>, stride: u32)
    requires
        sound(old(w)@),
        made(owner, old(w)@),
    ensures
        final(w)@ == strided(old(w)@, slot, owner, stride),
        sound(final(w)@),
        only_read(old(w)@, final(w)@),
{
    match owner {
        None => {},
        Some(id) => {
            let mut held = w.usage[id];
            assert(held.indexed <= w@.indexers.len());
            w.indexers.push((slot, id));
            let agreed = match held.stride {
                None => if held.indexed == 0 {
                    Some(stride)
                } else {
                    None
                },
                Some(before) => if before == stride {
                    Some(stride)
                } else {
                    None
                },
            };
            assert(w.indexers.len() == w.indexers@.len());
            held.indexed = held.indexed + 1;
            held.stride = agreed;
            w.usage.set(id, held);
            proof {
                assert(w@ =~= strided(old(w)@, slot, owner, stride));
            }
        },
    }
}

fn plain(operand: &Operand, e: Expr, reads: Vec<Slot>) -> (r: Sourced)
    ensures
        r@ == plainly(operand@, e@, reads@),
{
    Sourced { expr: modify(operand, e), domain: Domain::Float, reads, owner: None }
}

fn read_element(s: &Scene, index: u32, picked: &str, offset: u32, comps: &[u8]) -> (r: Expr)
    ensures
        r@ == element_read(s@, index, picked@, offset, comps@),
{
    let slot = index as u16;
    let by_element = lists(&s.plan.arrays, slot);
    let text = if by_element {
        picked.to_owned()
    } else {
        let d = decimal(offset as u64);
        cat3(picked, " + ", d.as_str())
    };
    if by_element {
        if let Some(parts) = s.names.element(slot, text.as_str(), offset, comps) {
            return gather(parts);
        }
    }
    let name = buffer_name(s.names, index);
    named(cat4(name.as_str(), "[", text.as_str(), "]"), copy_bytes(comps))
}

fn read_register(s: &Scene, index: u32, register: Option<u32>, text: &str, comps: &[u8]) -> (r: Expr)
    ensures
        r@ == register_read(s@, index, register, text@, comps@),
{
    proof {
        assert(s@.instructions.len() == s.instructions@.len());
    }
    let slot = index as u16;
    let name = buffer_name(s.names, index);
    if let Some(register) = register {
        if !lists(s.computed, slot) {
            if let Some(parts) = s.names.constant(slot, register, comps) {
                return gather(parts);
            }
            let alone = match find_span(s.instructions, slot) {
                Some(span) => span == 1,
                None => false,
            };
            if alone {
                return named(name, copy_bytes(comps));
            }
            let d = decimal(register as u64);
            return named(cat4(name.as_str(), "[", d.as_str(), "]"), copy_bytes(comps));
        }
    }
    named(cat4(name.as_str(), "[", text, "]"), copy_bytes(comps))
}

fn index_held(s: &Scene, w: &mut Walk, held: &OperandIndex) -> (r: Indexed)
    requires
        sound(old(w)@),
    ensures
        (final(w)@, r@) == (match held@ {
            IndexModel::Imm32(value) => (old(w)@, fixed_index(Some(value), dec(value as nat))),
            IndexModel::Imm64(value) => (old(w)@, fixed_index(None, dec(value as nat))),
            IndexModel::Relative(sub) => {
                let (after, r) = read(s@, old(w)@, *sub, seq![0u8]);
                (after, computed_index(r, None))
            },
            IndexModel::RelativePlusImm(offset, sub) => {
                let (after, r) = read(s@, old(w)@, *sub, seq![0u8]);
                (after, computed_index(r, Some(offset)))
            },
        }),
        sound(final(w)@),
        only_read(old(w)@, final(w)@),
        made(r.owner, final(w)@),
    decreases held, 0int,
{
    match held {
        OperandIndex::Imm32(value) => {
            let text = decimal(*value as u64);
            let picked = text.clone();
            Indexed { register: Some(*value), text, picked, reads: Vec::new(), owner: None }
        },
        OperandIndex::Imm64(value) => {
            let text = decimal(*value);
            let picked = text.clone();
            Indexed { register: None, text, picked, reads: Vec::new(), owner: None }
        },
        OperandIndex::Relative(sub) => {
            let lanes = counted_lanes(1);
            proof {
                assert(lanes@ =~= seq![0u8]);
            }
            let r = read_operand(s, w, sub, lanes.as_slice());
            let text = coerce(r.expr, r.domain, Domain::Int).text();
            let picked = text.clone();
            Indexed { register: None, text, picked, reads: r.reads, owner: r.owner }
        },
        OperandIndex::RelativePlusImm(offset, sub) => {
            let lanes = counted_lanes(1);
            proof {
                assert(lanes@ =~= seq![0u8]);
            }
            let r = read_operand(s, w, sub, lanes.as_slice());
            let picked = coerce(r.expr, r.domain, Domain::Int).text();
            let d = decimal(*offset as u64);
            let text = cat3(picked.as_str(), " + ", d.as_str());
            Indexed { register: None, text, picked, reads: r.reads, owner: r.owner }
        },
    }
}

/// A register index, which may itself be computed, and nought where there is none.
pub fn index_operand(s: &Scene, w: &mut Walk, operand: &Operand, at: usize) -> (r: Indexed)
    requires
        sound(old(w)@),
    ensures
        (final(w)@, r@) == index(s@, old(w)@, operand@.indices, at as int),
        sound(final(w)@),
        only_read(old(w)@, final(w)@),
        made(r.owner, final(w)@),
    decreases operand, 0int,
{
    proof {
        assert(operand@.indices.len() == operand.indices@.len());
    }
    if at >= operand.indices.len() {
        return Indexed {
            register: None,
            text: "0".to_owned(),
            picked: "0".to_owned(),
            reads: Vec::new(),
            owner: None,
        };
    }
    proof {
        assert(operand@.indices[at as int] == operand.indices@[at as int]@);
    }
    index_held(s, w, &operand.indices[at])
}

fn read_constant(s: &Scene, w: &mut Walk, operand: &Operand, comps: &[u8]) -> (r: Sourced)
    requires
        sound(old(w)@),
    ensures
        (final(w)@, r@) == constant_read(s@, old(w)@, operand@, comps@),
        sound(final(w)@),
        only_read(old(w)@, final(w)@),
        made(r.owner, final(w)@),
    decreases operand, 1int,
{
    let at = index_or_zero(operand);
    let slot = at as u16;
    let held = index_operand(s, w, operand, 1);
    let ghost after = w@;
    match inside(element(s, slot), operand) {
        Some((offset, step)) => {
            stride_by(w, slot, held.owner, step);
            let ghost noted = w@;
            let voted = held.owner.is_some();
            w.votes.push((slot, voted));
            proof {
                assert(w@ =~= (WalkModel { votes: noted.votes.push((slot, voted)), ..noted }));
            }
            plain(operand, read_element(s, at, held.picked.as_str(), offset, comps), held.reads)
        },
        None => {
            if lists(s.computed, slot) {
                w.votes.push((slot, false));
                proof {
                    assert(w@ =~= (WalkModel { votes: after.votes.push((slot, false)), ..after }));
                }
            }
            plain(operand, read_register(s, at, held.register, held.text.as_str(), comps), held.reads)
        },
    }
}

fn register_name(s: &Scene, w: &Walk, operand: &Operand) -> (r: String)
    ensures
        r@ == register_text(s@, w@, operand@),
{
    let at = index_or_zero(operand);
    let d = decimal(at as u64);
    match operand.reg_type {
        RegisterType::Temp => spell(&w.versions, at),
        RegisterType::Input => cat2("v", d.as_str()),
        RegisterType::Output => match s.names.outputs.get(at) {
            None => cat2("output.o", d.as_str()),
            Some(entry) => cat2("output.", entry.name.as_str()),
        },
        RegisterType::OutputDepth => match s.names.outputs.get(u32::MAX) {
            None => "output.SV_Depth".to_owned(),
            Some(entry) => cat2("output.", entry.name.as_str()),
        },
        RegisterType::Resource => s.names.texture(at as u16),
        RegisterType::Sampler => s.names.sampler(at as u16),
        other => {
            if operand.indices.len() == 0 {
                other.prefix().to_owned()
            } else {
                cat2(other.prefix(), d.as_str())
            }
        },
    }
}

/// An operand as the register it names, for everything the walk does not hold a value for.
pub fn register_operand(s: &Scene, w: &mut Walk, operand: &Operand, comps: &[u8]) -> (r: Sourced)
    requires
        sound(old(w)@),
    ensures
        (final(w)@, r@) == register(s@, old(w)@, operand@, comps@),
        sound(final(w)@),
        only_read(old(w)@, final(w)@),
        made(r.owner, final(w)@),
    decreases operand, 2int,
{
    let at = index_or_zero(operand);
    let none: Vec<Slot> = Vec::new();
    proof {
        assert(none@ =~= Seq::<Slot>::empty());
    }
    match operand.reg_type {
        RegisterType::Immediate32 => plain(operand, constant(bits_of(operand, comps), Domain::Float), none),
        RegisterType::ConstantBuffer => read_constant(s, w, operand, comps),
        RegisterType::ImmConstBuffer => {
            let held = index_operand(s, w, operand, 0);
            plain(operand, named(cat3("icb[", held.text.as_str(), "]"), copy_bytes(comps)), held.reads)
        },
        RegisterType::IndexableTemp => {
            let held = index_operand(s, w, operand, 1);
            let mut reads = held.reads;
            reads.push((operand.reg_type.to_u32(), at, 0));
            let d = decimal(at as u64);
            let base = cat5("x", d.as_str(), "[", held.text.as_str(), "]");
            plain(operand, named(base, copy_bytes(comps)), reads)
        },
        RegisterType::Input => {
            if let Some(entry) = s.names.inputs.get(at) {
                let mut r = plain(operand, named(entry.name.clone(), copy_bytes(comps)), none);
                r.domain = domain(entry.kind.as_str());
                return r;
            }
            plain(operand, named(register_name(s, w, operand), copy_bytes(comps)), none)
        },
        RegisterType::Sampler | RegisterType::Resource => {
            let whole: Vec<u8> = Vec::new();
            proof {
                assert(whole@ =~= Seq::<u8>::empty());
            }
            plain(operand, named(register_name(s, w, operand), whole), none)
        },
        _ => plain(operand, named(register_name(s, w, operand), copy_bytes(comps)), none),
    }
}

fn read_value(s: &Scene, def: &Def, id: usize, operand: &Operand, comps: &[u8], lanes: Vec<u8>) -> (r: Sourced)
    ensures
        r@ == value_read(s@, def@, id, operand@, comps@, lanes@),
{
    let key = (operand.reg_type.to_u32(), index_or_zero(operand));
    let moved = flagged(&s.plan.folded, id);
    let mut reads: Vec<Slot> = Vec::new();
    proof {
        assert(reads@ =~= Seq::<Slot>::empty());
    }
    if s.plan.cautious || moved {
        merge(&mut reads, &def.reads);
    }
    if s.plan.cautious || !flagged(&s.plan.localised, id) {
        let mine = slots(key, comps);
        merge(&mut reads, &mine);
    }
    let e = if moved {
        def.expr.duplicate().select(lanes.as_slice())
    } else if def.local {
        if def.lanes.len() == 1 {
            let whole: Vec<u8> = Vec::new();
            proof {
                assert(whole@ =~= Seq::<u8>::empty());
            }
            named(def.base.clone(), whole)
        } else {
            named(def.base.clone(), lanes)
        }
    } else {
        named(def.base.clone(), copy_bytes(comps))
    };
    let kind = match def.domain {
        Domain::Int | Domain::Uint => {
            if !moved && !def.local {
                Domain::Float
            } else {
                def.domain
            }
        },
        _ => def.domain,
    };
    Sourced { expr: modify(operand, e), domain: kind, reads, owner: Some(id) }
}

fn wanted_lanes(operand: &Operand, lanes: &[u8]) -> (r: Vec<u8>)
    ensures
        r@ == wanted(operand@, lanes@),
{
    match operand.reg_type {
        RegisterType::Immediate32 | RegisterType::Immediate64 => copy_bytes(lanes),
        _ => components(operand, lanes),
    }
}

/// A source operand, folding in whatever value already sits in it.
pub fn read_operand(s: &Scene, w: &mut Walk, operand: &Operand, lanes: &[u8]) -> (r: Sourced)
    requires
        sound(old(w)@),
    ensures
        (final(w)@, r@) == read(s@, old(w)@, operand@, lanes@),
        sound(final(w)@),
        only_read(old(w)@, final(w)@),
        made(r.owner, final(w)@),
    decreases operand, 3int,
{
    let comps = wanted_lanes(operand, lanes);
    let follows = match operand.reg_type {
        RegisterType::Temp | RegisterType::Output => true,
        _ => false,
    };
    if !follows {
        return register_operand(s, w, operand, comps.as_slice());
    }
    let key = (operand.reg_type.to_u32(), index_or_zero(operand));
    let at: usize = w.defs.len();
    let held = owners_at(&w.cells, key, comps.as_slice());
    proof {
        assert forall|i: int| 0 <= i < held@.len() implies match #[trigger] held@[i] {
            Some((id, _)) => id < w@.defs.len(),
            None => true,
        } by {
            lemma_owner_made(w@.cells, key, comps@[i], w@.cells.len() as int, w@.defs.len());
        }
    }
    touch_all(&mut w.touches, key, comps.as_slice(), at);
    let ghost seen = w@;
    proof {
        assert(seen =~= (WalkModel { touches: old(w)@.touches + touched(key, comps@, at), ..old(w)@ }));
    }
    match sole(&held) {
        None => {
            mix(&mut w.usage, &held);
            proof {
                lemma_mixed(old(w)@.usage, held@, held@.len() as int);
                assert(w@ =~= (WalkModel { usage: mixed(old(w)@.usage, held@, held@.len() as int), ..seen }));
                assert(sound(w@));
            }
            let mut r = register_operand(s, w, operand, comps.as_slice());
            let mine = slots(key, comps.as_slice());
            merge(&mut r.reads, &mine);
            r
        },
        Some(id) => {
            assert(held@[0] is Some && (held@[0]->0).0 == id);
            let mut one = w.usage[id];
            assert(old(w)@.usage[id as int].reads <= old(w)@.touches.len());
            assert(w.touches.len() == w.touches@.len());
            assert(touched(key, comps@, at).len() == comps@.len() > 0);
            one.reads = one.reads + 1;
            one.last = at;
            if w.defs[id].block != w.block {
                one.distant = true;
            }
            w.usage.set(id, one);
            let ghost def = old(w)@.defs[id as int];
            assert(def == w.defs@[id as int]@);
            proof {
                assert(w@ =~= (WalkModel {
                    usage: old(w)@.usage.update(
                        id as int,
                        read_once(old(w)@.usage[id as int], at, def.block != old(w)@.block),
                    ),
                    ..seen
                }));
                assert(sound(w@));
            }
            let places = positions_at(&held);
            read_value(s, &w.defs[id], id, operand, comps.as_slice(), places)
        },
    }
}


pub(crate) fn push_text(list: &mut Vec<String>, text: String)
    ensures
        texts(final(list)@) == texts(old(list)@).push(text@),
{
    let ghost before = texts(list@);
    let ghost m = text@;
    list.push(text);
    proof {
        assert(texts(list@) =~= before.push(m));
    }
}

fn push_record(list: &mut Vec<Option<Emitted>>, record: Option<Emitted>)
    ensures
        line_models(final(list)@) == line_models(old(list)@).push(line_model(record)),
{
    let ghost before = line_models(list@);
    let ghost m = line_model(record);
    list.push(record);
    proof {
        assert(line_models(list@) =~= before.push(m));
    }
}

/// Write a line that assigns nothing a run can build on.
fn line(w: &mut Walk, depth: usize, text: &str)
    requires
        sound(old(w)@),
    ensures
        final(w)@ == lined(old(w)@, depth as nat, text@),
        sound(final(w)@),
        final(w)@.blocks < final(w)@.out.len(),
        final(w)@.out.len() <= usize::MAX,
{
    let head = indentation(depth);
    let full = cat2(head.as_str(), text);
    push_text(&mut w.out, full);
    push_record(&mut w.emitted, None);
    assert(w.out.len() == w.out@.len());
    proof {
        assert(w@ =~= lined(old(w)@, depth as nat, text@));
    }
}

fn finish(s: &Scene, id: usize, e: Expr, saturate: bool) -> (r: Expr)
    ensures
        r@ == finished(s@, id as int, e@, saturate),
{
    let exact = match s.reading {
        Reading::Exact => true,
        _ => false,
    };
    let bounded = if saturate {
        let wide = e.width();
        call1("saturate", e, wide)
    } else {
        e
    };
    let simple = simplify(bounded, exact);
    let picked = if id < s.plan.elemental.len() && s.plan.elemental[id] != 0 {
        without_stride(simple, s.plan.elemental[id])
    } else {
        simple
    };
    if flagged(&s.plan.folded, id) || exact {
        picked
    } else {
        transform(s.names, picked)
    }
}

fn base_text(e: Expr) -> (r: String)
    ensures
        r@ == base_of(e@),
{
    match &e {
        Expr::Read { base, .. } => base.clone(),
        _ => e.text(),
    }
}

fn take_by(s: &Scene, dest: &Operand, e: Expr, held: Domain) -> (r: (Expr, Domain))
    ensures
        (r.0@, r.1) == taken_by(s@, dest@, e@, held),
{
    match dest.reg_type {
        RegisterType::Output => match s.names.outputs.get(index_or_zero(dest)) {
            Some(entry) => {
                let want = domain(entry.kind.as_str());
                (coerce(e, held, want), want)
            },
            None => (e, held),
        },
        _ => (e, held),
    }
}

fn name_apart(issued: &mut Vec<String>, stem: String) -> (r: String)
    ensures
        texts(final(issued)@) == texts(old(issued)@).push(stem@),
        r@ == own_name(texts(final(issued)@), stem@),
{
    push_text(issued, stem.clone());
    let ghost all = texts(issued@);
    let mut seen: usize = 0;
    let mut i: usize = 0;
    while i < issued.len()
        invariant
            seen <= i <= issued@.len(),
            all == texts(issued@),
            seen == times_issued(all, stem@, i as int),
        decreases issued@.len() - i,
    {
        assert(all[i as int] == issued@[i as int]@);
        if same(issued[i].as_str(), stem.as_str()) {
            seen = seen + 1;
        }
        i = i + 1;
    }
    if seen == 1 {
        stem
    } else {
        let d = decimal(seen as u64);
        cat3(stem.as_str(), "_", d.as_str())
    }
}

fn lane_in(lanes: &Vec<u8>, lane: u8) -> (r: bool)
    ensures
        r == has_lane(lanes@, lane),
{
    let mut i: usize = 0;
    while i < lanes.len()
        invariant
            i <= lanes@.len(),
            forall|k: int| 0 <= k < i ==> #[trigger] lanes@[k] != lane,
        decreases lanes@.len() - i,
    {
        if lanes[i] == lane {
            assert(lanes@[i as int] == lane);
            return true;
        }
        i = i + 1;
    }
    false
}

fn is_hit(slot: Slot, key: (u32, u32), lanes: &Vec<u8>, array: bool) -> (r: bool)
    ensures
        r == lands(slot, key, lanes@, array),
{
    (slot.0 == key.0 && slot.1 == key.1 && lane_in(lanes, slot.2)) || (array && slot.0 == key.0)
}

fn end_values(usage: &mut Vec<Usage>, waiting: &Vec<(Slot, usize)>, key: (u32, u32), lanes: &Vec<u8>, array: bool)
    ensures
        final(usage)@ == ended(old(usage)@, waiting@, key, lanes@, array, waiting@.len() as int),
{
    let mut i: usize = 0;
    while i < waiting.len()
        invariant
            i <= waiting@.len(),
            usage@ == ended(old(usage)@, waiting@, key, lanes@, array, i as int),
        decreases waiting@.len() - i,
    {
        let (slot, id) = waiting[i];
        if id < usage.len() && is_hit(slot, key, lanes, array) && usage[id].reads == 0 {
            let mut one = usage[id];
            one.stale = true;
            usage.set(id, one);
        }
        i = i + 1;
    }
}

fn overtake(usage: &mut Vec<Usage>, waiting: &Vec<(Slot, usize)>, key: (u32, u32), lanes: &Vec<u8>, arriving: usize)
    ensures
        final(usage)@ == overtaken(old(usage)@, waiting@, key, lanes@, arriving, waiting@.len() as int),
{
    let mut i: usize = 0;
    while i < waiting.len()
        invariant
            i <= waiting@.len(),
            usage@ == overtaken(old(usage)@, waiting@, key, lanes@, arriving, i as int),
        decreases waiting@.len() - i,
    {
        let (slot, id) = waiting[i];
        if id < usage.len() && is_hit(slot, key, lanes, false) && usage[id].last == arriving {
            let mut one = usage[id];
            one.stale = true;
            usage.set(id, one);
        }
        i = i + 1;
    }
}

fn wait_all(waiting: &mut Vec<(Slot, usize)>, reads: &Vec<Slot>, id: usize)
    ensures
        final(waiting)@ == old(waiting)@ + waits(reads@, id),
{
    let mut i: usize = 0;
    while i < reads.len()
        invariant
            i <= reads@.len(),
            waiting@ == old(waiting)@ + waits(reads@, id).take(i as int),
        decreases reads@.len() - i,
    {
        waiting.push((reads[i], id));
        proof {
            assert(waiting@ =~= old(waiting)@ + waits(reads@, id).take(i + 1));
        }
        i = i + 1;
    }
    proof {
        assert(waits(reads@, id).take(i as int) =~= waits(reads@, id));
    }
}

fn land_all(cells: &mut Vec<Cell>, key: (u32, u32), lanes: &Vec<u8>, id: usize)
    ensures
        final(cells)@ == old(cells)@ + landings(key, lanes@, id),
{
    let mut i: usize = 0;
    while i < lanes.len()
        invariant
            i <= lanes@.len(),
            cells@ == old(cells)@ + landings(key, lanes@, id).take(i as int),
        decreases lanes@.len() - i,
    {
        cells.push(Cell { key, lane: lanes[i] % 4, id, position: i as u8 });
        proof {
            assert(cells@ =~= old(cells)@ + landings(key, lanes@, id).take(i + 1));
        }
        i = i + 1;
    }
    proof {
        assert(landings(key, lanes@, id).take(i as int) =~= landings(key, lanes@, id));
    }
}

/// Take a value in at its destination.
fn arrive(w: &mut Walk, def: Def, dest: &Operand)
    requires
        sound(old(w)@),
    ensures
        final(w)@ == arrived(old(w)@, def@, dest@),
        sound(final(w)@),
        final(w).defs@.len() == old(w).defs@.len() + 1,
        final(w).defs@[old(w).defs@.len() as int]@ == def@,
{
    let id: usize = w.defs.len();
    let array = match dest.reg_type {
        RegisterType::IndexableTemp => true,
        _ => false,
    };
    let follows = match dest.reg_type {
        RegisterType::Temp | RegisterType::Output => true,
        _ => false,
    };
    let ghost before = w@;
    let ghost m = def@;
    w.usage.push(Usage::default());
    assert(w.usage@ == before.usage.push(unused()));
    let ghost pushed = w.usage@;
    end_values(&mut w.usage, &w.waiting, def.key, &def.lanes, array);
    proof {
        lemma_ended(pushed, before.waiting, m.key, m.lanes, array, before.waiting.len() as int);
    }
    wait_all(&mut w.waiting, &def.reads, id);
    if follows {
        land_all(&mut w.cells, def.key, &def.lanes, id);
    }
    w.defs.push(def);
    proof {
        assert(def_models(w.defs@) =~= before.defs.push(m));
        assert(w@ =~= arrived(before, m, dest@));
        assert forall|i: int| 0 <= i < w@.cells.len() implies (#[trigger] w@.cells[i]).id < w@.defs.len() by {
            if i < before.cells.len() {
                assert(w@.cells[i] == before.cells[i]);
            }
        }
        assert forall|i: int| 0 <= i < w@.usage.len() implies (#[trigger] w@.usage[i]).reads <= w@.touches.len()
            && w@.usage[i].indexed <= w@.indexers.len() by {
            assert(w@.usage[i].reads == pushed[i].reads && w@.usage[i].indexed == pushed[i].indexed);
            if i < before.usage.len() {
                assert(pushed[i] == before.usage[i]);
            }
        }
    }
}

fn kind_of_local(held: Domain) -> (r: &'static str)
    ensures
        r@ == local_kind(held),
{
    match held {
        Domain::Int => "int",
        Domain::Bool => "bool",
        _ => "uint",
    }
}

/// Write a value down.
fn write_down(s: &Scene, w: &mut Walk, id: usize, base: String, depth: usize)
    requires
        sound(old(w)@),
        id < old(w).defs@.len(),
    ensures
        final(w)@ == written_down(s@, old(w)@, old(w).defs@[id as int]@, base@, depth as nat),
        sound(final(w)@),
{
    let ghost before = w@;
    let ghost def = w.defs@[id as int]@;
    if w.defs[id].local {
        let kind = sized(kind_of_local(w.defs[id].domain), w.defs[id].lanes.len());
        let value = w.defs[id].expr.text();
        let text = cat6(kind.as_str(), " ", w.defs[id].base.as_str(), " = ", value.as_str(), ";");
        line(w, depth, text.as_str());
        return;
    }
    let exact = match s.reading {
        Reading::Exact => true,
        _ => false,
    };
    let held = w.defs[id].expr.duplicate();
    let stored = match w.defs[id].domain {
        Domain::Int | Domain::Uint => {
            let wide = held.width();
            simplify(call1("asfloat", held, wide), exact)
        },
        _ => held,
    };
    let lanes = copy_bytes(w.defs[id].lanes.as_slice());
    let place = target(base.as_str(), &lanes);
    let value = stored.text();
    let text = cat4(place.as_str(), " = ", value.as_str(), ";");
    let head = indentation(depth);
    let full = cat2(head.as_str(), text.as_str());
    push_text(&mut w.out, full);
    let record = Emitted { depth, base, lanes, expr: stored };
    let ghost m = record@;
    push_record(&mut w.emitted, Some(record));
    proof {
        assert(w@ =~= written_down(s@, before, def, base@, depth as nat));
    }
}

fn start_over(s: &Scene, w: &mut Walk, key: (u32, u32))
    requires
        sound(old(w)@),
    ensures
        final(w)@ == started_over(s@, old(w)@, key),
        sound(final(w)@),
{
    let id: usize = w.defs.len();
    if flagged(&s.plan.splits, id) {
        w.versions.push(key);
        let name = spell(&w.versions, key.1);
        push_text(&mut w.renamed, name);
        proof {
            assert(w@ =~= started_over(s@, old(w)@, key));
        }
    }
}

fn copy_slots(from: &Vec<Slot>) -> (r: Vec<Slot>)
    ensures
        r@ == from@,
{
    let mut out: Vec<Slot> = Vec::new();
    let mut i: usize = 0;
    while i < from.len()
        invariant
            i <= from@.len(),
            out@.len() == i,
            forall|k: int| 0 <= k < i ==> #[trigger] out@[k] == from@[k],
        decreases from@.len() - i,
    {
        out.push(from[i]);
        i = i + 1;
    }
    proof {
        assert(out@ =~= from@);
    }
    out
}

/// Record a value against its destination, writing it down unless it can be folded into whatever reads it.
pub fn define(
    s: &Scene,
    w: &mut Walk,
    dest: &Operand,
    e: Expr,
    held: Domain,
    reads: Vec<Slot>,
    saturate: bool,
    depth: usize,
)
    requires
        sound(old(w)@),
    ensures
        final(w)@ == defined(s@, old(w)@, dest@, e@, held, reads@, saturate, depth as nat),
        sound(final(w)@),
{
    if dest.reg_type == RegisterType::Null {
        return;
    }
    let id: usize = w.defs.len();
    let lanes = written(dest);
    let key = (dest.reg_type.to_u32(), index_or_zero(dest));
    let ready = finish(s, id, e, saturate);
    start_over(s, w, key);
    let r = register_operand(s, w, dest, lanes.as_slice());
    let ghost after = w@;
    let base = base_text(r.expr);
    let (value, kind) = take_by(s, dest, ready, held);
    let local = flagged(&s.plan.localised, id);
    let name = if local {
        let l = letters(lanes.as_slice());
        let stem = cat3(base.as_str(), "_", l.as_str());
        let name = name_apart(&mut w.issued, stem);
        proof {
            assert(w@ =~= (WalkModel { issued: w@.issued, ..after }));
        }
        name
    } else {
        base.clone()
    };
    let temporary = match dest.reg_type {
        RegisterType::Temp => true,
        _ => false,
    };
    let def = Def {
        base: name,
        key,
        lanes,
        expr: value,
        domain: kind,
        reads,
        block: w.block,
        fixed: !temporary,
        local,
        looped: w.looped,
    };
    proof {
        assert(w@ =~= (WalkModel { issued: w@.issued, ..after }));
    }
    arrive(w, def, dest);
    if flagged(&s.plan.folded, id) {
        return;
    }
    write_down(s, w, id, base, depth);
}

/// The test an `if`, `discard` or conditional break is taken on.
pub fn test_of(s: &Scene, w: &mut Walk, at: usize) -> (r: String)
    requires
        sound(old(w)@),
    ensures
        (final(w)@, r@) == condition(s@, old(w)@, at as int),
        sound(final(w)@),
        only_read(old(w)@, final(w)@),
{
    proof {
        assert(s@.instructions.len() == s.instructions@.len());
    }
    if at >= s.instructions.len() {
        return "true".to_owned();
    }
    let held = &s.instructions[at];
    let operands = held.operands();
    proof {
        assert(s@.instructions[at as int] == held@);
        assert(operand_models(operands@).len() == operands@.len());
    }
    if operands.len() == 0 {
        return "true".to_owned();
    }
    let lanes = counted_lanes(1);
    proof {
        assert(lanes@ =~= seq![0u8]);
        assert(operand_models(operands@)[0] == operands@[0]@);
    }
    let r = read_operand(s, w, &operands[0], lanes.as_slice());
    if let Expr::Literal { bits, .. } = &r.expr {
        let raised = bits.len() > 0 && bits[0] != 0;
        if raised == held.test_nonzero {
            return "true".to_owned();
        }
        return "false".to_owned();
    }
    let test = coerce(r.expr, r.domain, Domain::Bool);
    if held.test_nonzero {
        test.text()
    } else {
        unary("!", test).text()
    }
}

/// The instruction as the disassembler writes it.
fn keep_verbatim(s: &Scene, w: &mut Walk, at: usize, depth: usize)
    requires
        sound(old(w)@),
        at < s.instructions@.len(),
    ensures
        final(w)@ == verbatim(s@, old(w)@, at as int, depth as nat),
        sound(final(w)@),
{
    proof {
        assert(s@.instructions[at as int] == s.instructions@[at as int]@);
    }
    let said = format_instruction(&s.instructions[at]);
    let text = cat2("// ", said.as_str());
    line(w, depth, text.as_str());
}

/// Read the operands of an instruction from one on.
#[verifier::spinoff_prover]
#[verifier::rlimit(60)]
fn read_sources(s: &Scene, w: &mut Walk, operands: &[Operand], lanes: &[u8], from: usize) -> (r: (
    Vec<(Expr, Domain)>,
    Vec<Slot>,
))
    requires
        sound(old(w)@),
        from <= operands@.len(),
    ensures
        (final(w)@, (ReadModel { sources: source_models(r.0@), reads: r.1@ })) == read_all(
            s@,
            old(w)@,
            operand_models(operands@),
            lanes@,
            from as int,
            operands@.len() as int,
        ),
        sound(final(w)@),
        only_read(old(w)@, final(w)@),
{
    let ghost all = operand_models(operands@);
    let mut sources: Vec<(Expr, Domain)> = Vec::new();
    let mut reads: Vec<Slot> = Vec::new();
    let mut i: usize = from;
    proof {
        assert(source_models(sources@) =~= Seq::<(ExprModel, Domain)>::empty());
        assert(reads@ =~= Seq::<Slot>::empty());
    }
    while i < operands.len()
        invariant
            from <= i <= operands@.len(),
            all == operand_models(operands@),
            sound(w@),
            only_read(old(w)@, w@),
            (w@, (ReadModel { sources: source_models(sources@), reads: reads@ })) == read_all(
                s@,
                old(w)@,
                all,
                lanes@,
                from as int,
                i as int,
            ),
        decreases operands@.len() - i,
    {
        assert(all[i as int] == operands@[i as int]@);
        let r = read_operand(s, w, &operands[i], lanes);
        let mut more = r.reads;
        let ghost was = source_models(sources@);
        let ghost one = (r.expr@, r.domain);
        reads.append(&mut more);
        sources.push((r.expr, r.domain));
        proof {
            assert(source_models(sources@) =~= was.push(one));
        }
        i = i + 1;
    }
    (sources, reads)
}

fn is_behind(values: &Vec<Option<(Expr, Domain)>>, at: usize) -> (r: bool)
    requires
        at < values@.len(),
    ensures
        r == another_behind(value_models(values@), at as int),
{
    let ghost all = value_models(values@);
    let count: usize = values.len();
    let mut j: usize = at + 1;
    while j < count
        invariant
            at < j <= values@.len(),
            count == values@.len(),
            all == value_models(values@),
            forall|k: int| at < k < j ==> (#[trigger] all[k]) is None,
        decreases values@.len() - j,
    {
        assert(all[j as int] == value_model(values@[j as int]));
        if values[j].is_some() {
            assert(all[j as int] is Some);
            return true;
        }
        j = j + 1;
    }
    false
}

fn cross(w: &mut Walk, operands: &[Operand], values: &Vec<Option<(Expr, Domain)>>)
    requires
        sound(old(w)@),
    ensures
        final(w)@ == crossed(
            old(w)@,
            operand_models(operands@),
            value_models(values@),
            values@.len() as int,
        ),
        sound(final(w)@),
{
    let ghost all = operand_models(operands@);
    let ghost held = value_models(values@);
    let mut i: usize = 0;
    while i < values.len()
        invariant
            i <= values@.len(),
            all == operand_models(operands@),
            held == value_models(values@),
            sound(w@),
            w@ == crossed(old(w)@, all, held, i as int),
        decreases values@.len() - i,
    {
        assert(held[i as int] == value_model(values@[i as int]));
        if values[i].is_some() && i < operands.len() && is_behind(values, i) {
            assert(all[i as int] == operands@[i as int]@);
            let dest = &operands[i];
            let lanes = written(dest);
            let key = (dest.reg_type.to_u32(), index_or_zero(dest));
            let arriving: usize = w.defs.len();
            let ghost before = w@;
            overtake(&mut w.usage, &w.waiting, key, &lanes, arriving);
            proof {
                lemma_overtaken(before.usage, before.waiting, key, lanes@, arriving, before.waiting.len() as int);
                assert(w@ =~= (WalkModel { usage: w@.usage, ..before }));
            }
        }
        i = i + 1;
    }
}

fn narrow_value(opcode: Opcode, dest: &Operand, e: &Expr) -> (r: Expr)
    ensures
        r@ == super::walk::narrowed(opcode, dest@, e@),
{
    if elementwise(opcode) {
        e.duplicate()
    } else {
        let lanes = written(dest);
        e.duplicate().select(lanes.as_slice())
    }
}

fn define_all(s: &Scene, w: &mut Walk, i: &Instruction, values: &Vec<Option<(Expr, Domain)>>, reads: &Vec<Slot>, depth: usize)
    requires
        sound(old(w)@),
    ensures
        final(w)@ == defined_all(
            s@,
            old(w)@,
            i@,
            value_models(values@),
            reads@,
            depth as nat,
            values@.len() as int,
        ),
        sound(final(w)@),
{
    let ghost held = value_models(values@);
    let operands = i.operands();
    let ghost all = i@.kind.operands();
    let mut n: usize = 0;
    while n < values.len()
        invariant
            n <= values@.len(),
            all == operand_models(operands@),
            all == i@.kind.operands(),
            held == value_models(values@),
            sound(w@),
            w@ == defined_all(s@, old(w)@, i@, held, reads@, depth as nat, n as int),
        decreases values@.len() - n,
    {
        assert(held[n as int] == value_model(values@[n as int]));
        if let Some((e, kind)) = &values[n] {
            if n < operands.len() {
                assert(all[n as int] == operands@[n as int]@);
                let value = narrow_value(i.opcode, &operands[n], e);
                define(s, w, &operands[n], value, *kind, copy_slots(reads), i.saturate, depth);
            }
        }
        n = n + 1;
    }
}

/// Go past an instruction that computes something.
pub fn assign(s: &Scene, w: &mut Walk, at: usize, depth: usize)
    requires
        sound(old(w)@),
        at < s.instructions@.len(),
    ensures
        final(w)@ == assigned(s@, old(w)@, at as int, depth as nat),
        sound(final(w)@),
{
    let i = &s.instructions[at];
    let operands = i.operands();
    let count = destinations(i.opcode);
    proof {
        assert(s@.instructions[at as int] == i@);
        assert(operand_models(operands@).len() == operands@.len());
    }
    if count == 0 || operands.len() <= count {
        keep_verbatim(s, w, at, depth);
        return;
    }
    let lanes = first_lanes(operands, count);
    let wide: usize = lanes.len();
    let taken = if elementwise(i.opcode) {
        lanes
    } else {
        counted_lanes(4)
    };
    let (sources, reads) = read_sources(s, w, operands, taken.as_slice(), count);
    let r = evaluate(s.names, s.instructions, i.opcode, &sources, operands, count, wide);
    let ghost after = w@;
    if let Some(text) = r.helper {
        place(&mut w.helpers, text);
        proof {
            assert(w@ =~= (WalkModel { helpers: w@.helpers, ..after }));
        }
    }
    proof {
        assert(value_models(r.values@).len() == r.values@.len());
    }
    if r.values.len() == 0 {
        keep_verbatim(s, w, at, depth);
        return;
    }
    cross(w, operands, &r.values);
    define_all(s, w, i, &r.values, &reads, depth);
}

fn act(opcode: Opcode, hands_back: bool) -> (r: &'static str)
    ensures
        r@ == action(opcode, hands_back),
{
    match opcode {
        Opcode::Discard => "discard",
        Opcode::Break | Opcode::Breakc => "break",
        Opcode::Continue | Opcode::Continuec => "continue",
        _ => if hands_back {
            "return output"
        } else {
            "return"
        },
    }
}

/// Go past an instruction.
pub fn step(s: &Scene, w: &mut Walk, at: usize, depth: usize)
    requires
        sound(old(w)@),
    ensures
        final(w)@ == instruction(s@, old(w)@, at as int, depth as nat),
        sound(final(w)@),
{
    proof {
        assert(s@.instructions.len() == s.instructions@.len());
    }
    if at >= s.instructions.len() {
        return;
    }
    let i = &s.instructions[at];
    proof {
        assert(s@.instructions[at as int] == i@);
    }
    let generic = match &i.kind {
        InstructionKind::Generic { .. } => true,
        _ => false,
    };
    if !generic {
        return;
    }
    let opcode = i.opcode;
    match opcode {
        Opcode::Ret | Opcode::Break | Opcode::Continue => {
            let text = cat2(act(opcode, s.hands_back), ";");
            line(w, depth, text.as_str());
        },
        Opcode::Nop => {},
        Opcode::Discard | Opcode::Breakc | Opcode::Continuec | Opcode::Retc => {
            let test = test_of(s, w, at);
            if same(test.as_str(), "true") {
                let text = cat2(act(opcode, s.hands_back), ";");
                line(w, depth, text.as_str());
            } else if !same(test.as_str(), "false") {
                let text = cat5("if (", test.as_str(), ") ", act(opcode, s.hands_back), ";");
                line(w, depth, text.as_str());
            }
        },
        _ => assign(s, w, at, depth),
    }
}

proof fn lemma_height_each(tree: Seq<StmtModel>, n: int, i: int)
    requires
        0 <= i < n <= tree.len(),
    ensures
        own_height(tree[i]) <= height(tree, n),
    decreases n,
{
    if i < n - 1 {
        lemma_height_each(tree, n - 1, i);
    }
}

/// Walk through a block of its own.
fn walk_nested(s: &Scene, w: &mut Walk, tree: &Vec<Stmt>, depth: usize)
    requires
        sound(old(w)@),
        old(w)@.blocks < old(w)@.out.len() <= usize::MAX,
        depth + height(stmt_models(tree@), tree@.len() as int) <= usize::MAX,
    ensures
        final(w)@ == nested(s@, old(w)@, stmt_models(tree@), depth as nat),
        sound(final(w)@),
    decreases tree, 1int,
{
    let outer = w.block;
    let next: usize = w.blocks + 1;
    w.block = next;
    w.blocks = next;
    proof {
        assert(w@ =~= (WalkModel { block: next, blocks: next, ..old(w)@ }));
        assert(stmt_models(tree@).len() == tree@.len());
    }
    walk_list(s, w, tree, depth);
    let ghost inner = w@;
    w.block = outer;
    proof {
        assert(w@ =~= (WalkModel { block: outer, ..inner }));
    }
}

/// Walk past a statement.
fn walk_statement(s: &Scene, w: &mut Walk, stmt: &Stmt, depth: usize)
    requires
        sound(old(w)@),
        depth + own_height(stmt@) <= usize::MAX,
    ensures
        final(w)@ == statement(s@, old(w)@, stmt@, depth as nat),
        sound(final(w)@),
    decreases stmt, 0int,
{
    proof {
        lemma_block_model(*stmt);
    }
    match stmt {
        Stmt::Op(at) => step(s, w, *at, depth),
        Stmt::If { at, yes, els } => {
            proof {
                assert(stmt_models(yes@).len() == yes@.len());
                assert(stmt_models(els@).len() == els@.len());
            }
            let test = test_of(s, w, *at);
            let text = cat3("if (", test.as_str(), ")");
            line(w, depth, text.as_str());
            line(w, depth, "{");
            walk_nested(s, w, yes, depth + 1);
            if els.len() > 0 {
                line(w, depth, "}");
                line(w, depth, "else");
                line(w, depth, "{");
                walk_nested(s, w, els, depth + 1);
            }
            line(w, depth, "}");
        },
        Stmt::Loop(inner) => {
            proof {
                assert(stmt_models(inner@).len() == inner@.len());
            }
            let was = w.looped;
            line(w, depth, "while (true)");
            line(w, depth, "{");
            let ghost opened = w@;
            w.looped = true;
            proof {
                assert(w@ =~= (WalkModel { looped: true, ..opened }));
            }
            walk_nested(s, w, inner, depth + 1);
            let ghost turned = w@;
            w.looped = was;
            proof {
                assert(w@ =~= (WalkModel { looped: was, ..turned }));
            }
            line(w, depth, "}");
        },
    }
}

/// Walk past the statements of a list.
fn walk_list(s: &Scene, w: &mut Walk, tree: &Vec<Stmt>, depth: usize)
    requires
        sound(old(w)@),
        depth + height(stmt_models(tree@), tree@.len() as int) <= usize::MAX,
    ensures
        final(w)@ == super::walk::body(s@, old(w)@, stmt_models(tree@), tree@.len() as int, depth as nat),
        sound(final(w)@),
    decreases tree, 0int,
{
    let ghost all = stmt_models(tree@);
    let mut i: usize = 0;
    while i < tree.len()
        invariant
            i <= tree@.len(),
            all == stmt_models(tree@),
            depth + height(all, tree@.len() as int) <= usize::MAX,
            sound(w@),
            w@ == super::walk::body(s@, old(w)@, all, i as int, depth as nat),
        decreases tree@.len() - i,
    {
        assert(all[i as int] == tree@[i as int]@);
        proof {
            lemma_height_each(all, all.len() as int, i as int);
        }
        walk_statement(s, w, &tree[i], depth);
        i = i + 1;
    }
}

/// A whole walk.
pub fn walk(s: &Scene, tree: &Vec<Stmt>, depth: usize) -> (r: Walk)
    requires
        depth + height(stmt_models(tree@), tree@.len() as int) <= usize::MAX,
    ensures
        r@ == walked(s@, stmt_models(tree@), depth as nat),
        sound(r@),
{
    let mut w = Walk::new();
    walk_list(s, &mut w, tree, depth);
    proof {
        assert(stmt_models(tree@).len() == tree@.len());
    }
    w
}


fn is_reached(votes: &Vec<(u16, bool)>, slot: u16) -> (r: bool)
    ensures
        r == reached(votes@, slot),
{
    let mut met = false;
    let mut i: usize = 0;
    while i < votes.len()
        invariant
            i <= votes@.len(),
            met == exists|k: int| 0 <= k < i && (#[trigger] votes@[k]).0 == slot,
            forall|k: int| 0 <= k < i && (#[trigger] votes@[k]).0 == slot ==> votes@[k].1,
        decreases votes@.len() - i,
    {
        let (held, kept) = votes[i];
        assert(votes@[i as int] == (held, kept));
        if held == slot {
            if !kept {
                return false;
            }
            met = true;
        }
        i = i + 1;
    }
    met
}

fn is_picked(indexers: &Vec<(u16, usize)>, elemental: &Vec<u32>, slot: u16) -> (r: bool)
    ensures
        r == picked_by_elements(indexers@, elemental@, slot),
{
    let mut met = false;
    let mut i: usize = 0;
    while i < indexers.len()
        invariant
            i <= indexers@.len(),
            met == exists|k: int| 0 <= k < i && (#[trigger] indexers@[k]).0 == slot,
            forall|k: int|
                0 <= k < i && (#[trigger] indexers@[k]).0 == slot ==> indexers@[k].1 < elemental@.len()
                    && elemental@[indexers@[k].1 as int] > 0,
        decreases indexers@.len() - i,
    {
        let (held, id) = indexers[i];
        assert(indexers@[i as int] == (held, id));
        if held == slot {
            if !(id < elemental.len() && elemental[id] > 0) {
                return false;
            }
            met = true;
        }
        i = i + 1;
    }
    met
}

/// Which buffers can be read as arrays of structs, after a walk that counted.
pub fn array_slots(s: &Scene, w: &Walk, elemental: &Vec<u32>) -> (r: Vec<u16>)
    ensures
        r@ == arrays_in(s@, w@, elemental@, w@.votes.len() as int),
{
    let mut out: Vec<u16> = Vec::new();
    let mut i: usize = 0;
    while i < w.votes.len()
        invariant
            i <= w.votes@.len(),
            out@ == arrays_in(s@, w@, elemental@, i as int),
        decreases w.votes@.len() - i,
    {
        let slot: u16 = w.votes[i].0;
        if !lists(&out, slot) && is_reached(&w.votes, slot) && element(s, slot).is_some() && is_picked(
            &w.indexers,
            elemental,
            slot,
        ) {
            out.push(slot);
        }
        i = i + 1;
    }
    out
}

fn same_flags(a: &Vec<bool>, b: &Vec<bool>) -> (r: bool)
    ensures
        r == (a@ == b@),
{
    if a.len() != b.len() {
        return false;
    }
    let mut i: usize = 0;
    while i < a.len()
        invariant
            i <= a@.len(),
            a@.len() == b@.len(),
            forall|k: int| 0 <= k < i ==> #[trigger] a@[k] == b@[k],
        decreases a@.len() - i,
    {
        if a[i] != b[i] {
            assert(a@[i as int] != b@[i as int]);
            return false;
        }
        i = i + 1;
    }
    assert(a@ =~= b@);
    true
}

fn reads_alike(a: &Vec<Usage>, b: &Vec<Usage>) -> (r: bool)
    ensures
        r == read_alike(a@, b@),
{
    if a.len() != b.len() {
        return false;
    }
    let mut i: usize = 0;
    while i < a.len()
        invariant
            i <= a@.len(),
            a@.len() == b@.len(),
            forall|k: int| 0 <= k < i ==> (#[trigger] a@[k]).reads == b@[k].reads,
        decreases a@.len() - i,
    {
        if a[i].reads != b[i].reads {
            assert(a@[i as int].reads != b@[i as int].reads);
            return false;
        }
        i = i + 1;
    }
    true
}

fn copy_flags(from: &Vec<bool>) -> (r: Vec<bool>)
    ensures
        r@ == from@,
{
    let mut out: Vec<bool> = Vec::new();
    let mut i: usize = 0;
    while i < from.len()
        invariant
            i <= from@.len(),
            out@.len() == i,
            forall|k: int| 0 <= k < i ==> #[trigger] out@[k] == from@[k],
        decreases from@.len() - i,
    {
        out.push(from[i]);
        i = i + 1;
    }
    proof {
        assert(out@ =~= from@);
    }
    out
}

/// Look for a walk whose own decisions are the ones it went by.
fn settle(s: &mut Scene, tree: &Vec<Stmt>, depth: usize, first: &Walk, careful: &Vec<bool>, guarded: &Vec<bool>) -> (r:
    Option<Walk>)
    requires
        sound(first@),
        careful@.len() == first.defs@.len(),
        guarded@.len() == first.defs@.len(),
        depth + height(stmt_models(tree@), tree@.len() as int) <= usize::MAX,
    ensures
        match r {
            Some(w) => sound(w@) && settled(
                old(s)@,
                stmt_models(tree@),
                depth as nat,
                first@,
                careful@,
                guarded@,
                ROUNDS as nat,
            ) == Some(w@),
            None => settled(
                old(s)@,
                stmt_models(tree@),
                depth as nat,
                first@,
                careful@,
                guarded@,
                ROUNDS as nat,
            ) is None,
        },
        final(s)@ == (SceneModel {
            folded: final(s)@.folded,
            localised: final(s)@.localised,
            splits: final(s)@.splits,
            cautious: final(s)@.cautious,
            ..old(s)@
        }),
{
    let ghost list = stmt_models(tree@);
    let ghost was = s@;
    let mut folded = copy_flags(careful);
    let mut localised = copy_flags(guarded);
    let mut starts = splits(first.defs.as_slice(), first.touches.as_slice(), careful.as_slice(), guarded.as_slice());
    let ghost mut before = first@;
    let mut left: usize = ROUNDS;
    while left > 0
        invariant
            left <= ROUNDS,
            was == old(s)@,
            list == stmt_models(tree@),
            depth + height(list, tree@.len() as int) <= usize::MAX,
            starts@ == fresh_starts(before.defs, before.touches, folded@, localised@),
            s@ == (SceneModel {
                folded: s@.folded,
                localised: s@.localised,
                splits: s@.splits,
                cautious: s@.cautious,
                ..was
            }),
            settled(was, list, depth as nat, first@, careful@, guarded@, ROUNDS as nat) == settled(
                was,
                list,
                depth as nat,
                before,
                folded@,
                localised@,
                left as nat,
            ),
        decreases left,
    {
        s.plan.folded = copy_flags(&folded);
        s.plan.localised = copy_flags(&localised);
        s.plan.splits = starts;
        s.plan.cautious = false;
        let ghost scene = SceneModel {
            folded: folded@,
            localised: localised@,
            splits: fresh_starts(before.defs, before.touches, folded@, localised@),
            cautious: false,
            ..was
        };
        proof {
            assert(s@ =~= scene);
        }
        let w = walk(s, tree, depth);
        let (again, held) = decide(&w.defs, &w.usage);
        if same_flags(&again, &folded) && same_flags(&held, &localised) {
            return Some(w);
        }
        folded = again;
        localised = held;
        starts = splits(w.defs.as_slice(), w.touches.as_slice(), folded.as_slice(), localised.as_slice());
        proof {
            before = w@;
        }
        left = left - 1;
    }
    None
}

/// The walk over a shader's instructions, and what reading them gave.
pub struct Builder<'a> {
    pub scene: Scene<'a>,
    /// The names registers that started over took, in the order the body introduces them.
    pub renamed: Vec<String>,
    /// Buffers being read as arrays of structs rather than as arrays of registers.
    pub arrays: Vec<u16>,
    /// Functions the body needs that HLSL does not provide, in order.
    pub helpers: Vec<String>,
    /// The statements, one per line and already indented.
    pub out: Vec<String>,
}

/// What a builder over a program goes by before any walk.
pub open spec fn opening(program: Program, names: Names, computed: Seq<u16>, reading: Reading) -> SceneModel {
    SceneModel {
        instructions: instruction_models(program.instructions@),
        names,
        computed,
        reading,
        hands_back: names.outputs@.len() > 0,
        folded: Seq::empty(),
        localised: Seq::empty(),
        splits: Seq::empty(),
        elemental: Seq::empty(),
        arrays: Seq::empty(),
        cautious: true,
    }
}

/// Nothing has been decided.
pub open spec fn unwalked(s: SceneModel) -> bool {
    s.folded.len() == 0 && s.localised.len() == 0 && s.splits.len() == 0 && s.elemental.len() == 0 && s.arrays.len() == 0
        && s.cautious
}

impl<'a> Builder<'a> {
    /// What reading the body gave.
    pub open spec fn view(&self) -> BodyModel {
        BodyModel {
            out: texts(self.out@),
            renamed: texts(self.renamed@),
            helpers: texts(self.helpers@),
            arrays: self.arrays@,
        }
    }

    /// A builder over a program. What its declarations say about the resources it binds is looked up where it is needed.
    pub fn new(program: &'a Program, names: &'a Names, computed: &'a Vec<u16>, reading: Reading) -> (r: Self)
        ensures
            r.scene@ == opening(*program, *names, computed@, reading),
            r.out@.len() == 0,
            r.renamed@.len() == 0,
            r.helpers@.len() == 0,
            r.arrays@.len() == 0,
    {
        let plan = Plan {
            folded: Vec::new(),
            localised: Vec::new(),
            splits: Vec::new(),
            elemental: Vec::new(),
            arrays: Vec::new(),
            cautious: true,
        };
        let scene = Scene {
            instructions: &program.instructions,
            names,
            computed,
            reading,
            hands_back: !names.outputs.is_empty(),
            plan,
        };
        proof {
            assert(scene@ =~= opening(*program, *names, computed@, reading));
        }
        Builder { scene, renamed: Vec::new(), arrays: Vec::new(), helpers: Vec::new(), out: Vec::new() }
    }

    /// The walk to make a reading from, with the buffers it reads as arrays settled.
    fn choose_walk(&mut self, tree: &Vec<Stmt>, depth: usize) -> (r: Walk)
        requires
            unwalked(old(self).scene@),
            depth + height(stmt_models(tree@), tree@.len() as int) <= usize::MAX,
        ensures
            final(self).scene@.arrays == chosen_walk(
                old(self).scene@,
                stmt_models(tree@),
                depth as nat,
            ).0.arrays,
            r@ == chosen_walk(old(self).scene@, stmt_models(tree@), depth as nat).1,
            final(self).scene@.reading == old(self).scene@.reading,
            final(self).scene@.names == old(self).scene@.names,
            sound(r@),
    {
        let ghost list = stmt_models(tree@);
        let ghost start = self.scene@;
        proof {
            assert(counting(start) =~= start);
        }
        let counted = walk(&self.scene, tree, depth);
        let (careful, guarded) = decide(&counted.defs, &counted.usage);
        let sizes = elements(&counted.defs, &counted.usage);
        let held = array_slots(&self.scene, &counted, &sizes);
        self.scene.plan.elemental = sizes;
        self.scene.plan.arrays = held;
        let ghost known = informed(start, counted@);
        proof {
            assert(self.scene@ =~= known);
        }
        let found = settle(&mut self.scene, tree, depth, &counted, &careful, &guarded);
        let mut w = match found {
            Some(w) => w,
            None => {
                self.scene.plan.folded = careful;
                self.scene.plan.localised = guarded;
                self.scene.plan.splits = Vec::new();
                self.scene.plan.cautious = true;
                proof {
                    assert(self.scene@ =~= (SceneModel {
                        folded: careful@,
                        localised: guarded@,
                        splits: Seq::empty(),
                        cautious: true,
                        ..known
                    }));
                }
                walk(&self.scene, tree, depth)
            },
        };
        if !reads_alike(&w.usage, &counted.usage) {
            self.scene.plan.folded = Vec::new();
            self.scene.plan.localised = Vec::new();
            self.scene.plan.splits = Vec::new();
            self.scene.plan.cautious = true;
            proof {
                assert(self.scene@ =~= counting(known));
            }
            w = walk(&self.scene, tree, depth);
        }
        w
    }

    /// Read the body of a shader, walking it until the reading it produces is the one its own decisions describe.
    pub fn run(&mut self, tree: &Vec<Stmt>, depth: usize)
        requires
            unwalked(old(self).scene@),
            depth + height(stmt_models(tree@), tree@.len() as int) <= usize::MAX,
        ensures
            final(self)@ == body_read(old(self).scene@, stmt_models(tree@), depth as nat),
    {
        let ghost start = self.scene@;
        proof {
            assert(counting(start) =~= start);
        }
        match self.scene.reading {
            Reading::Plain => {
                let w = walk(&self.scene, tree, depth);
                self.out = w.out;
                self.renamed = w.renamed;
                self.helpers = w.helpers;
                self.arrays = Vec::new();
                proof {
                    assert(self.arrays@ =~= start.arrays);
                }
            },
            Reading::Exact => {
                let w = self.choose_walk(tree, depth);
                let mut out = w.out;
                coalesce(&mut out, &w.emitted);
                self.out = out;
                self.renamed = w.renamed;
                self.helpers = w.helpers;
                self.arrays = copy_slots_of(&self.scene.plan.arrays);
            },
            Reading::Folded => {
                let w = self.choose_walk(tree, depth);
                let mut out = w.out;
                let assigned = fold(self.scene.names, &mut out, &w.emitted);
                proof {
                    lemma_folded_lengths(start.names, w@.out, w@.emitted, 0);
                    assert(texts(out@).len() == out@.len());
                    assert(line_models(assigned@).len() == assigned@.len());
                }
                coalesce(&mut out, &assigned);
                self.out = out;
                self.renamed = w.renamed;
                self.helpers = w.helpers;
                self.arrays = copy_slots_of(&self.scene.plan.arrays);
            },
        }
    }
}

fn copy_slots_of(from: &Vec<u16>) -> (r: Vec<u16>)
    ensures
        r@ == from@,
{
    let mut out: Vec<u16> = Vec::new();
    let mut i: usize = 0;
    while i < from.len()
        invariant
            i <= from@.len(),
            out@.len() == i,
            forall|k: int| 0 <= k < i ==> #[trigger] out@[k] == from@[k],
        decreases from@.len() - i,
    {
        out.push(from[i]);
        i = i + 1;
    }
    proof {
        assert(out@ =~= from@);
    }
    out
}

} // verus!
