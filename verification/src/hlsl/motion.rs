//! What a value that moves to its reader is moved past.
use super::fetch::evaluated;
use super::laws::{lemma_read_only_reads, lemma_register_only_reads};
use super::machine::{destination_count, index_of, lanes_written, written_lanes};
use super::structure::StmtModel;
use super::value::{flag, has_slot, merged, moves, DefModel, Slot, Usage};
use super::walk::{
    another_behind, arrived, assigned, body, condition, constant_read, crossed, defined, defined_all, element_of, ended,
    fresh, helped, index, inside_of, instruction, lined, mixed, narrowed, nested, overtaken, owned_by, owner_of, owners,
    read, read_all, register, slots_of, sole_owner, source_lanes, started_over, statement, strided, touched, waits,
    walked, wanted, SceneModel, WalkModel,
};
use crate::shex::ir::{IndexModel, InstructionModel, OperandModel, RegisterType};
use super::expr::{Domain, ExprModel};
use vstd::prelude::*;

verus! {

/// A value's write changes a component of a register: the component is one of those it lands in, or of an array, of
/// which nothing tells one element from another.
pub open spec fn changes(def: DefModel, slot: Slot) -> bool {
    ||| slot.0 == def.key.0 && slot.1 == def.key.1 && def.lanes.contains(slot.2)
    ||| def.key.0 == 3 && slot.0 == 3
}

/// A value's write changes something that another value was computed from.
pub open spec fn disturbs(def: DefModel, held: DefModel) -> bool {
    exists|j: int| 0 <= j < held.reads.len() && changes(def, #[trigger] held.reads[j])
}

/// Registers of the file of arrays are arrays, as in every program that was decoded.
pub open spec fn proper(s: SceneModel) -> bool {
    forall|at: int, k: int|
        0 <= at < s.instructions.len() && 0 <= k < s.instructions[at].kind.operands().len() ==> proper_operand(
            #[trigger] s.instructions[at].kind.operands()[k],
        )
}

/// A register of the file of arrays is an array.
pub open spec fn proper_operand(operand: OperandModel) -> bool {
    operand.reg_type.raw() == 3 ==> operand.reg_type == RegisterType::IndexableTemp
}

/// A value made behind another that changes what the other was computed from ended it, unless the other had been read
/// before.
spec fn spared(w: WalkModel, id: int, k: int) -> bool {
    !w.usage[id].stale && disturbs(w.defs[k], w.defs[id]) ==> w.usage[id].reads >= 1 && (w.usage[id].reads == 1
        ==> w.usage[id].last <= k)
}

/// The value waits on a component.
spec fn waited(w: WalkModel, slot: Slot, id: int) -> bool {
    exists|q: int| 0 <= q < w.waiting.len() && #[trigger] w.waiting[q] == (slot, id as usize)
}

spec fn fits(w: WalkModel) -> bool {
    w.defs.len() <= usize::MAX && w.touches.len() <= usize::MAX
}

spec fn held(w: WalkModel) -> bool {
    &&& w.usage.len() == w.defs.len()
    &&& forall|i: int| 0 <= i < w.cells.len() ==> (#[trigger] w.cells[i]).id < w.defs.len()
    &&& forall|i: int| 0 <= i < w.waiting.len() ==> (#[trigger] w.waiting[i]).1 < w.defs.len()
    &&& forall|id: int, j: int|
        0 <= id < w.defs.len() && 0 <= j < w.defs[id].reads.len() ==> waited(w, #[trigger] w.defs[id].reads[j], id)
    &&& forall|i: int|
        0 <= i < w.usage.len() ==> (#[trigger] w.usage[i]).reads <= w.touches.len() && w.usage[i].last <= w.defs.len()
    &&& forall|id: int, k: int| 0 <= id < k < w.defs.len() ==> #[trigger] spared(w, id, k)
}

/// What a walk keeps up as long as it can be counted.
spec fn kept(w: WalkModel) -> bool {
    fits(w) ==> held(w)
}

spec fn grown(w: WalkModel, after: WalkModel) -> bool {
    w.defs.len() <= after.defs.len() && w.touches.len() <= after.touches.len()
}

/// The walk goes on from one state to another.
spec fn on(w: WalkModel, after: WalkModel) -> bool {
    grown(w, after) && (kept(w) ==> kept(after))
}

/// Nothing that counts for what moves is different.
spec fn alike(w: WalkModel, after: WalkModel) -> bool {
    &&& after.defs == w.defs
    &&& after.cells == w.cells
    &&& after.waiting == w.waiting
    &&& after.touches.len() >= w.touches.len()
    &&& after.usage.len() == w.usage.len()
    &&& forall|i: int|
        0 <= i < w.usage.len() ==> (#[trigger] after.usage[i]).reads == w.usage[i].reads && after.usage[i].last
            == w.usage[i].last && (w.usage[i].stale ==> after.usage[i].stale)
}

proof fn lemma_alike(w: WalkModel, after: WalkModel)
    requires
        alike(w, after),
    ensures
        on(w, after),
{
    if fits(after) && kept(w) {
        assert forall|id: int, j: int|
            0 <= id < after.defs.len() && 0 <= j < after.defs[id].reads.len() implies waited(
            after,
            #[trigger] after.defs[id].reads[j],
            id,
        ) by {
            assert(waited(w, w.defs[id].reads[j], id));
            let q = choose|q: int| 0 <= q < w.waiting.len() && #[trigger] w.waiting[q] == (w.defs[id].reads[j], id as usize);
            assert(after.waiting[q] == (w.defs[id].reads[j], id as usize));
        }
        assert forall|id: int, k: int| 0 <= id < k < after.defs.len() implies #[trigger] spared(after, id, k) by {
            assert(spared(w, id, k));
            assert(after.usage[id].reads == w.usage[id].reads);
        }
    }
}

/// The owner is a value that was made.
spec fn made(w: WalkModel, owner: Option<usize>) -> bool {
    fits(w) && held(w) ==> (owner matches Some(id) ==> id < w.defs.len())
}

proof fn lemma_mixed_alike(usage: Seq<Usage>, found: Seq<Option<(usize, u8)>>, n: int)
    requires
        0 <= n <= found.len(),
        forall|i: int| 0 <= i < found.len() ==> ((#[trigger] found[i]) matches Some((id, _)) ==> id < usage.len()),
    ensures
        mixed(usage, found, n).len() == usage.len(),
        forall|i: int|
            0 <= i < usage.len() ==> (#[trigger] mixed(usage, found, n)[i]).reads == usage[i].reads && mixed(
                usage,
                found,
                n,
            )[i].last == usage[i].last && mixed(usage, found, n)[i].stale == usage[i].stale,
    decreases n,
{
    if n > 0 {
        lemma_mixed_alike(usage, found, n - 1);
    }
}

proof fn lemma_strided_on(w: WalkModel, slot: u16, owner: Option<usize>, stride: u32)
    requires
        made(w, owner),
    ensures
        on(w, strided(w, slot, owner, stride)),
{
    match owner {
        None => {},
        Some(id) => {
            if fits(w) && held(w) {
                lemma_alike(w, strided(w, slot, owner, stride));
            }
        },
    }
}

proof fn lemma_index_on(s: SceneModel, w: WalkModel, indices: Seq<IndexModel>, at: int)
    ensures
        on(w, index(s, w, indices, at).0),
        index(s, w, indices, at).0.defs == w.defs,
        kept(w) ==> made(index(s, w, indices, at).0, index(s, w, indices, at).1.owner),
    decreases indices, 0int,
{
    if 0 <= at < indices.len() {
        match indices[at] {
            IndexModel::Relative(of) => {
                lemma_read_on(s, w, *of, seq![0u8]);
            },
            IndexModel::RelativePlusImm(_, of) => {
                lemma_read_on(s, w, *of, seq![0u8]);
            },
            _ => {},
        }
    }
}

proof fn lemma_constant_on(s: SceneModel, w: WalkModel, operand: OperandModel, comps: Seq<u8>)
    ensures
        kept(w) ==> on(w, constant_read(s, w, operand, comps).0),
        grown(w, constant_read(s, w, operand, comps).0),
    decreases operand, 0int,
{
    let slot = index_of(operand) as u16;
    let (after, r) = index(s, w, operand.indices, 1);
    lemma_index_on(s, w, operand.indices, 1);
    let end = constant_read(s, w, operand, comps).0;
    match inside_of(element_of(s, slot), operand.indices) {
        Some((_, step)) => {
            if kept(w) {
                lemma_strided_on(after, slot, r.owner, step);
                lemma_alike(strided(after, slot, r.owner, step), end);
            }
        },
        None => {
            lemma_alike(after, end);
        },
    }
}

proof fn lemma_register_on(s: SceneModel, w: WalkModel, operand: OperandModel, comps: Seq<u8>)
    ensures
        on(w, register(s, w, operand, comps).0),
        register(s, w, operand, comps).1.owner is None,
    decreases operand, 1int,
{
    lemma_index_on(s, w, operand.indices, 0);
    lemma_index_on(s, w, operand.indices, 1);
    lemma_constant_on(s, w, operand, comps);
}

proof fn lemma_owner_made(w: WalkModel, key: (u32, u32), lane: u8, n: int)
    requires
        0 <= n <= w.cells.len(),
        forall|i: int| 0 <= i < w.cells.len() ==> (#[trigger] w.cells[i]).id < w.defs.len(),
    ensures
        owner_of(w.cells, key, lane, n) matches Some((id, _)) ==> id < w.defs.len(),
    decreases n,
{
    if n > 0 {
        lemma_owner_made(w, key, lane, n - 1);
    }
}

proof fn lemma_read_on(s: SceneModel, w: WalkModel, operand: OperandModel, lanes: Seq<u8>)
    ensures
        on(w, read(s, w, operand, lanes).0),
        read(s, w, operand, lanes).0.defs == w.defs,
        kept(w) ==> made(read(s, w, operand, lanes).0, read(s, w, operand, lanes).1.owner),
    decreases operand, 2int,
{
    lemma_read_only_reads(s, w, operand, lanes);
    let comps = wanted(operand, lanes);
    lemma_register_on(s, w, operand, comps);
    if super::walk::followed(operand.reg_type) {
        let key = (operand.reg_type.raw(), index_of(operand));
        let at = w.defs.len() as usize;
        let found = owners(w.cells, key, comps);
        let seen = WalkModel { touches: w.touches + touched(key, comps, at), ..w };
        let after = read(s, w, operand, lanes).0;
        match sole_owner(found) {
            None => {
                let blurred = WalkModel { usage: mixed(w.usage, found, found.len() as int), ..seen };
                if fits(blurred) && kept(w) {
                    assert forall|i: int| 0 <= i < found.len() implies ((#[trigger] found[i]) matches Some((id, _)) ==> id
                        < w.usage.len()) by {
                        lemma_owner_made(w, key, comps[i], w.cells.len() as int);
                    }
                    lemma_mixed_alike(w.usage, found, found.len() as int);
                    lemma_alike(w, blurred);
                }
                assert(on(w, blurred));
                lemma_register_on(s, blurred, operand, comps);
            },
            Some(id) => {
                if fits(after) && kept(w) {
                    lemma_owner_made(w, key, comps[0], w.cells.len() as int);
                    assert(found[0] == owner_of(w.cells, key, comps[0], w.cells.len() as int));
                    assert(id < w.defs.len());
                    let n = id as int;
                    assert(w.usage[n].reads <= w.touches.len());
                    assert(after.usage[n].reads == w.usage[n].reads + 1);
                    assert forall|i: int, j: int|
                        0 <= i < after.defs.len() && 0 <= j < after.defs[i].reads.len() implies waited(
                        after,
                        #[trigger] after.defs[i].reads[j],
                        i,
                    ) by {
                        assert(waited(w, w.defs[i].reads[j], i));
                        let q = choose|q: int|
                            0 <= q < w.waiting.len() && #[trigger] w.waiting[q] == (w.defs[i].reads[j], i as usize);
                        assert(after.waiting[q] == (w.defs[i].reads[j], i as usize));
                    }
                    assert forall|i: int, k: int| 0 <= i < k < after.defs.len() implies #[trigger] spared(
                        after,
                        i,
                        k,
                    ) by {
                        assert(spared(w, i, k));
                    }
                }
            },
        }
    }
}

proof fn lemma_ended(
    usage: Seq<Usage>,
    waiting: Seq<(Slot, usize)>,
    key: (u32, u32),
    lanes: Seq<u8>,
    array: bool,
    n: int,
)
    requires
        0 <= n <= waiting.len(),
    ensures
        ({
            let after = ended(usage, waiting, key, lanes, array, n);
            &&& after.len() == usage.len()
            &&& forall|i: int|
                0 <= i < usage.len() ==> (#[trigger] after[i]).reads == usage[i].reads && after[i].last == usage[i].last && (
                usage[i].stale ==> after[i].stale)
            &&& forall|q: int|
                0 <= q < n && (#[trigger] waiting[q]).1 < usage.len() && super::walk::lands(waiting[q].0, key, lanes, array)
                    && usage[waiting[q].1 as int].reads == 0 ==> after[waiting[q].1 as int].stale
        }),
    decreases n,
{
    if n > 0 {
        lemma_ended(usage, waiting, key, lanes, array, n - 1);
    }
}

proof fn lemma_changes_land(def: DefModel, slot: Slot, array: bool)
    requires
        changes(def, slot),
        def.key.0 == 3 ==> array,
    ensures
        super::walk::lands(slot, def.key, def.lanes, array),
{
    if def.lanes.contains(slot.2) {
        let i = choose|i: int| 0 <= i < def.lanes.len() && def.lanes[i] == slot.2;
        assert(def.lanes[i] == slot.2);
    }
}

proof fn lemma_arrived_on(w: WalkModel, def: DefModel, dest: OperandModel)
    requires
        proper_operand(dest),
        def.key.0 == dest.reg_type.raw(),
    ensures
        on(w, arrived(w, def, dest)),
{
    let after = arrived(w, def, dest);
    if fits(after) && kept(w) {
        let id = w.defs.len() as usize;
        let n = w.defs.len() as int;
        let array = dest.reg_type == RegisterType::IndexableTemp;
        let usage = w.usage.push(super::value::unused());
        lemma_ended(usage, w.waiting, def.key, def.lanes, array, w.waiting.len() as int);
        assert forall|i: int| 0 <= i < after.waiting.len() implies (#[trigger] after.waiting[i]).1 < after.defs.len() by {
            if i < w.waiting.len() {
                assert(after.waiting[i] == w.waiting[i]);
            }
        }
        assert forall|i: int| 0 <= i < after.cells.len() implies (#[trigger] after.cells[i]).id < after.defs.len() by {
            if i < w.cells.len() {
                assert(after.cells[i] == w.cells[i]);
            }
        }
        assert forall|i: int, j: int|
            0 <= i < after.defs.len() && 0 <= j < after.defs[i].reads.len() implies waited(
            after,
            #[trigger] after.defs[i].reads[j],
            i,
        ) by {
            if i < n {
                assert(after.defs[i] == w.defs[i]);
                assert(waited(w, w.defs[i].reads[j], i));
                let q = choose|q: int|
                    0 <= q < w.waiting.len() && #[trigger] w.waiting[q] == (w.defs[i].reads[j], i as usize);
                assert(after.waiting[q] == (w.defs[i].reads[j], i as usize));
            } else {
                assert(waits(def.reads, id)[j] == (def.reads[j], id));
                assert(after.waiting[w.waiting.len() + j] == (def.reads[j], id));
            }
        }
        assert forall|i: int| 0 <= i < after.usage.len() implies (#[trigger] after.usage[i]).reads <= after.touches.len()
            && after.usage[i].last <= after.defs.len() by {
            if i < n {
                assert(usage[i] == w.usage[i]);
                assert(w.usage[i].reads <= w.touches.len());
            }
        }
        assert forall|i: int, k: int| 0 <= i < k < after.defs.len() implies #[trigger] spared(after, i, k) by {
            assert(usage[i] == w.usage[i]);
            assert(after.defs[i] == w.defs[i]);
            if k < n {
                assert(after.defs[k] == w.defs[k]);
                assert(spared(w, i, k));
            } else if disturbs(def, w.defs[i]) {
                let j = choose|j: int| 0 <= j < w.defs[i].reads.len() && changes(def, #[trigger] w.defs[i].reads[j]);
                let slot = w.defs[i].reads[j];
                lemma_changes_land(def, slot, array);
                assert(waited(w, slot, i));
                let q = choose|q: int| 0 <= q < w.waiting.len() && #[trigger] w.waiting[q] == (slot, i as usize);
                assert(w.waiting[q].1 as int == i);
                assert(w.usage[i].last <= w.defs.len());
            }
        }
    }
}

proof fn lemma_overtaken(
    usage: Seq<Usage>,
    waiting: Seq<(Slot, usize)>,
    key: (u32, u32),
    lanes: Seq<u8>,
    arriving: usize,
    n: int,
)
    requires
        0 <= n <= waiting.len(),
    ensures
        ({
            let after = overtaken(usage, waiting, key, lanes, arriving, n);
            &&& after.len() == usage.len()
            &&& forall|i: int|
                0 <= i < usage.len() ==> (#[trigger] after[i]).reads == usage[i].reads && after[i].last == usage[i].last && (
                usage[i].stale ==> after[i].stale)
            &&& forall|q: int|
                0 <= q < n && (#[trigger] waiting[q]).1 < usage.len() && super::walk::lands(waiting[q].0, key, lanes, false)
                    && usage[waiting[q].1 as int].last == arriving ==> after[waiting[q].1 as int].stale
        }),
    decreases n,
{
    if n > 0 {
        lemma_overtaken(usage, waiting, key, lanes, arriving, n - 1);
    }
}

proof fn lemma_crossed_alike(
    w: WalkModel,
    operands: Seq<OperandModel>,
    values: Seq<Option<(ExprModel, Domain)>>,
    n: int,
)
    ensures
        alike(w, crossed(w, operands, values, n)),
    decreases n,
{
    if n > 0 {
        lemma_crossed_alike(w, operands, values, n - 1);
        let before = crossed(w, operands, values, n - 1);
        let dest = operands[n - 1];
        lemma_overtaken(
            before.usage,
            before.waiting,
            (dest.reg_type.raw(), index_of(dest)),
            written_lanes(dest),
            before.defs.len() as usize,
            before.waiting.len() as int,
        );
    }
}

proof fn lemma_defined_on(
    s: SceneModel,
    w: WalkModel,
    dest: OperandModel,
    e: ExprModel,
    domain: Domain,
    reads: Seq<Slot>,
    saturate: bool,
    depth: nat,
)
    requires
        proper_operand(dest),
    ensures
        on(w, defined(s, w, dest, e, domain, reads, saturate, depth)),
{
    if dest.reg_type != RegisterType::Null {
        let after = defined(s, w, dest, e, domain, reads, saturate, depth);
        let key = (dest.reg_type.raw(), index_of(dest));
        let over = started_over(s, w, key);
        lemma_alike(w, over);
        lemma_register_on(s, over, dest, written_lanes(dest));
        lemma_register_only_reads(s, over, dest, written_lanes(dest));
        let named = register(s, over, dest, written_lanes(dest)).0;
        let def = after.defs.last();
        let issued = after.issued;
        let ready = WalkModel { issued, ..named };
        lemma_alike(named, ready);
        assert(after.defs == ready.defs.push(def));
        lemma_arrived_on(ready, def, dest);
        lemma_alike(arrived(ready, def, dest), after);
    }
}

proof fn lemma_defined_all_on(
    s: SceneModel,
    w: WalkModel,
    i: InstructionModel,
    values: Seq<Option<(ExprModel, Domain)>>,
    reads: Seq<Slot>,
    depth: nat,
    n: int,
)
    requires
        forall|k: int| 0 <= k < i.kind.operands().len() ==> proper_operand(#[trigger] i.kind.operands()[k]),
    ensures
        on(w, defined_all(s, w, i, values, reads, depth, n)),
    decreases n,
{
    if n > 0 {
        lemma_defined_all_on(s, w, i, values, reads, depth, n - 1);
        let before = defined_all(s, w, i, values, reads, depth, n - 1);
        match values[n - 1] {
            Some((e, domain)) => {
                if n - 1 < i.kind.operands().len() {
                    let dest = i.kind.operands()[n - 1];
                    lemma_defined_on(s, before, dest, narrowed(i.opcode, dest, e), domain, reads, i.saturate, depth);
                }
            },
            None => {},
        }
    }
}

proof fn lemma_read_all_on(
    s: SceneModel,
    w: WalkModel,
    operands: Seq<OperandModel>,
    lanes: Seq<u8>,
    from: int,
    to: int,
)
    ensures
        on(w, read_all(s, w, operands, lanes, from, to).0),
    decreases to - from,
{
    if to > from {
        lemma_read_all_on(s, w, operands, lanes, from, to - 1);
        lemma_read_on(s, read_all(s, w, operands, lanes, from, to - 1).0, operands[to - 1], lanes);
    }
}

proof fn lemma_assigned_on(s: SceneModel, w: WalkModel, at: int, depth: nat)
    requires
        proper(s),
        0 <= at < s.instructions.len(),
    ensures
        on(w, assigned(s, w, at, depth)),
{
    let i = s.instructions[at];
    let operands = i.kind.operands();
    let count = destination_count(i.opcode) as int;
    let end = assigned(s, w, at, depth);
    if count == 0 || operands.len() <= count {
        lemma_alike(w, end);
    } else {
        let lanes = lanes_written(operands, count, 0);
        let taken = source_lanes(i.opcode, lanes);
        lemma_read_all_on(s, w, operands, taken, count, operands.len() as int);
        let (after, sources) = read_all(s, w, operands, taken, count, operands.len() as int);
        let r = evaluated(s.names, s.instructions, i.opcode, sources.sources, operands, count, lanes.len() as usize);
        let ready = helped(after, r.helper);
        lemma_alike(after, ready);
        if r.values.len() == 0 {
            lemma_alike(ready, end);
        } else {
            let n = r.values.len() as int;
            lemma_crossed_alike(ready, operands, r.values, n);
            lemma_alike(ready, crossed(ready, operands, r.values, n));
            assert forall|k: int| 0 <= k < i.kind.operands().len() implies proper_operand(
                #[trigger] i.kind.operands()[k],
            ) by {
                assert(proper_operand(s.instructions[at].kind.operands()[k]));
            }
            lemma_defined_all_on(s, crossed(ready, operands, r.values, n), i, r.values, sources.reads, depth, n);
        }
    }
}

proof fn lemma_condition_on(s: SceneModel, w: WalkModel, at: int)
    ensures
        on(w, condition(s, w, at).0),
{
    if 0 <= at < s.instructions.len() && s.instructions[at].kind.operands().len() > 0 {
        lemma_read_on(s, w, s.instructions[at].kind.operands()[0], seq![0u8]);
    }
}

proof fn lemma_instruction_on(s: SceneModel, w: WalkModel, at: int, depth: nat)
    requires
        proper(s),
    ensures
        on(w, instruction(s, w, at, depth)),
{
    if 0 <= at < s.instructions.len() && s.instructions[at].kind is Generic {
        lemma_condition_on(s, w, at);
        lemma_assigned_on(s, w, at, depth);
        let end = instruction(s, w, at, depth);
        let (tested, _) = condition(s, w, at);
        if alike(w, end) {
            lemma_alike(w, end);
        }
        if alike(tested, end) {
            lemma_alike(tested, end);
        }
    }
}

proof fn lemma_body_on(s: SceneModel, w: WalkModel, tree: Seq<StmtModel>, n: int, depth: nat)
    requires
        proper(s),
    ensures
        on(w, body(s, w, tree, n, depth)),
    decreases tree, n,
{
    if 0 < n <= tree.len() {
        lemma_body_on(s, w, tree, n - 1, depth);
        lemma_statement_on(s, body(s, w, tree, n - 1, depth), tree[n - 1], depth);
    }
}

proof fn lemma_nested_on(s: SceneModel, w: WalkModel, tree: Seq<StmtModel>, depth: nat)
    requires
        proper(s),
    ensures
        on(w, nested(s, w, tree, depth)),
    decreases tree, tree.len() + 1,
{
    let entered = WalkModel { block: (w.blocks + 1) as usize, blocks: (w.blocks + 1) as usize, ..w };
    lemma_alike(w, entered);
    lemma_body_on(s, entered, tree, tree.len() as int, depth);
    lemma_alike(body(s, entered, tree, tree.len() as int, depth), nested(s, w, tree, depth));
}

proof fn lemma_statement_on(s: SceneModel, w: WalkModel, stmt: StmtModel, depth: nat)
    requires
        proper(s),
    ensures
        on(w, statement(s, w, stmt, depth)),
    decreases stmt, 0int,
{
    match stmt {
        StmtModel::Op(at) => {
            lemma_instruction_on(s, w, at, depth);
        },
        StmtModel::If { at, yes, els } => {
            lemma_condition_on(s, w, at);
            let (tested, test) = condition(s, w, at);
            let opened = lined(lined(tested, depth, "if ("@ + test + ")"@), depth, "{"@);
            lemma_alike(tested, opened);
            lemma_nested_on(s, opened, yes, depth + 1);
            let first = nested(s, opened, yes, depth + 1);
            let again = lined(lined(lined(first, depth, "}"@), depth, "else"@), depth, "{"@);
            lemma_alike(first, again);
            lemma_nested_on(s, again, els, depth + 1);
            let second = if els.len() == 0 {
                first
            } else {
                nested(s, again, els, depth + 1)
            };
            lemma_alike(second, lined(second, depth, "}"@));
        },
        StmtModel::Loop(inner) => {
            let opened = lined(lined(w, depth, "while (true)"@), depth, "{"@);
            let turning = WalkModel { looped: true, ..opened };
            lemma_alike(w, turning);
            lemma_nested_on(s, turning, inner, depth + 1);
            let turned = nested(s, turning, inner, depth + 1);
            lemma_alike(turned, lined(WalkModel { looped: w.looped, ..turned }, depth, "}"@));
        },
    }
}

/// A value is moved to its reader only past writes that leave alone what it was computed from: none of the values made
/// between it and its last reader lands in a component of a register that its expression reads, nor in an array where it
/// reads one.
pub proof fn law_moved_value_is_undisturbed(
    s: SceneModel,
    tree: Seq<StmtModel>,
    depth: nat,
    id: int,
    k: int,
    slot: Slot,
)
    requires
        proper(s),
        walked(s, tree, depth).defs.len() <= usize::MAX,
        walked(s, tree, depth).touches.len() <= usize::MAX,
        0 <= id < walked(s, tree, depth).defs.len(),
        moves(walked(s, tree, depth).defs, walked(s, tree, depth).usage, id),
        id < k < walked(s, tree, depth).usage[id].last,
        walked(s, tree, depth).defs[id].reads.contains(slot),
    ensures
        ({
            let write = walked(s, tree, depth).defs[k];
            &&& write.key == (slot.0, slot.1) && slot.2 < 4 ==> !write.lanes.contains(slot.2)
            &&& !(write.key.0 == RegisterType::IndexableTemp.raw() && slot.0 == write.key.0)
        }),
{
    let w = walked(s, tree, depth);
    lemma_body_on(s, fresh(), tree, tree.len() as int, depth);
    assert(held(fresh()));
    assert(held(w));
    let j = choose|j: int| 0 <= j < w.defs[id].reads.len() && w.defs[id].reads[j] == slot;
    assert(w.usage[id].last <= w.defs.len());
    assert(spared(w, id, k));
    let write = w.defs[k];
    let def = w.defs[id];
    if changes(write, slot) {
        assert(changes(write, def.reads[j]));
        assert(disturbs(write, def));
        assert(w.usage[id].reads > 1);
        assert(super::value::lasts(w.defs, def, id, w.usage[id].last as int));
        assert(!super::value::ends(w.defs[k], def));
        if write.key.0 != 3 && slot.2 < 4 {
            let l = choose|l: int| 0 <= l < write.lanes.len() && write.lanes[l] == slot.2;
            assert(super::value::has_slot(def.reads, (write.key.0, write.key.1, write.lanes[l] % 4))) by {
                assert(def.reads[j] == (write.key.0, write.key.1, write.lanes[l] % 4));
            }
        }
    }
}

proof fn lemma_merged_has(slots: Seq<Slot>, more: Seq<Slot>, n: int)
    requires
        0 <= n <= more.len(),
    ensures
        forall|slot: Slot| slots.contains(slot) ==> #[trigger] merged(slots, more, n).contains(slot),
        forall|i: int| 0 <= i < n ==> merged(slots, more, n).contains(#[trigger] more[i]),
    decreases n,
{
    if n > 0 {
        lemma_merged_has(slots, more, n - 1);
        let before = merged(slots, more, n - 1);
        let after = merged(slots, more, n);
        let one = more[n - 1];
        assert forall|slot: Slot| before.contains(slot) || slot == one implies after.contains(slot) by {
            if has_slot(before, one) {
                let i = choose|i: int| 0 <= i < before.len() && #[trigger] before[i] == one;
                assert(after.contains(one));
            } else {
                if before.contains(slot) {
                    let i = choose|i: int| 0 <= i < before.len() && before[i] == slot;
                    assert(after[i] == slot);
                }
                assert(after[before.len() as int] == one);
            }
        }
        assert forall|slot: Slot| slots.contains(slot) implies #[trigger] merged(slots, more, n).contains(slot) by {
            assert(before.contains(slot));
        }
        assert forall|i: int| 0 <= i < n implies merged(slots, more, n).contains(#[trigger] more[i]) by {
            if i < n - 1 {
                assert(before.contains(more[i]));
            }
        }
    }
}

/// What a read of a register that the walk follows depends on: the components that it takes, unless they come from a
/// value with a name of its own, which nothing writes again; and, where a value moves into it, all that the value
/// depends on.
pub proof fn law_read_depends_on_what_it_takes(
    s: SceneModel,
    w: WalkModel,
    operand: OperandModel,
    lanes: Seq<u8>,
    i: int,
    id: int,
    slot: Slot,
)
    requires
        operand.reg_type == RegisterType::Temp || operand.reg_type == RegisterType::Output,
        0 <= i < wanted(operand, lanes).len(),
    ensures
        ({
            let r = read(s, w, operand, lanes).1;
            let took = (operand.reg_type.raw(), index_of(operand), wanted(operand, lanes)[i] % 4);
            &&& r.owner is None || s.cautious || !flag(s.localised, r.owner->0 as int) ==> r.reads.contains(took)
            &&& r.owner is Some && (s.cautious || flag(s.folded, id)) && r.owner->0 == id && w.defs[id].reads.contains(
                slot,
            ) ==> r.reads.contains(slot)
        }),
{
    let comps = wanted(operand, lanes);
    let key = (operand.reg_type.raw(), index_of(operand));
    let found = owners(w.cells, key, comps);
    let r = read(s, w, operand, lanes).1;
    let own = slots_of(key, comps);
    assert(own[i] == (key.0, key.1, comps[i] % 4));
    match sole_owner(found) {
        None => {
            let seen = WalkModel { touches: w.touches + touched(key, comps, w.defs.len() as usize), ..w };
            let blurred = WalkModel { usage: mixed(w.usage, found, found.len() as int), ..seen };
            let plain = register(s, blurred, operand, comps).1;
            lemma_register_on(s, blurred, operand, comps);
            lemma_merged_has(plain.reads, own, comps.len() as int);
        },
        Some(owner) => {
            let def = w.defs[owner as int];
            let brought = if s.cautious || flag(s.folded, owner as int) {
                merged(Seq::empty(), def.reads, def.reads.len() as int)
            } else {
                Seq::empty()
            };
            lemma_merged_has(Seq::empty(), def.reads, def.reads.len() as int);
            lemma_merged_has(brought, own, comps.len() as int);
            if owner == id && def.reads.contains(slot) {
                let j = choose|j: int| 0 <= j < def.reads.len() && def.reads[j] == slot;
                assert(merged(Seq::empty(), def.reads, def.reads.len() as int).contains(def.reads[j]));
            }
        },
    }
}

/// A read under an index that is computed depends on all that the index depends on.
pub proof fn law_read_depends_on_its_index(
    s: SceneModel,
    w: WalkModel,
    operand: OperandModel,
    lanes: Seq<u8>,
    level: int,
    slot: Slot,
)
    requires
        operand.reg_type == RegisterType::ConstantBuffer && level == 1 || operand.reg_type
            == RegisterType::IndexableTemp && level == 1 || operand.reg_type == RegisterType::ImmConstBuffer && level == 0,
        index(s, w, operand.indices, level).1.reads.contains(slot),
    ensures
        read(s, w, operand, lanes).1.reads.contains(slot),
{
    let r = index(s, w, operand.indices, level).1;
    let j = choose|j: int| 0 <= j < r.reads.len() && r.reads[j] == slot;
    assert(read(s, w, operand, lanes).1.reads[j] == slot);
}

/// An array read depends on the array.
pub proof fn law_array_read_depends_on_the_array(s: SceneModel, w: WalkModel, operand: OperandModel, lanes: Seq<u8>)
    requires
        operand.reg_type == RegisterType::IndexableTemp,
    ensures
        exists|slot: Slot| #[trigger]
            read(s, w, operand, lanes).1.reads.contains(slot) && slot.0 == RegisterType::IndexableTemp.raw(),
{
    let r = read(s, w, operand, lanes).1;
    let slot = (operand.reg_type.raw(), index_of(operand), 0u8);
    assert(r.reads[r.reads.len() - 1] == slot);
    assert(r.reads.contains(slot));
}

/// What several reads depend on holds what each of them does.
pub proof fn law_reads_depend_on_each_source(
    s: SceneModel,
    w: WalkModel,
    operands: Seq<OperandModel>,
    lanes: Seq<u8>,
    from: int,
    to: int,
    k: int,
    slot: Slot,
)
    requires
        from <= k < to,
        read(s, read_all(s, w, operands, lanes, from, k).0, operands[k], lanes).1.reads.contains(slot),
    ensures
        read_all(s, w, operands, lanes, from, to).1.reads.contains(slot),
    decreases to - from,
{
    let before = read_all(s, w, operands, lanes, from, to - 1).1.reads;
    let here = read(s, read_all(s, w, operands, lanes, from, to - 1).0, operands[to - 1], lanes).1.reads;
    let all = read_all(s, w, operands, lanes, from, to).1.reads;
    if k < to - 1 {
        law_reads_depend_on_each_source(s, w, operands, lanes, from, to - 1, k, slot);
        let j = choose|j: int| 0 <= j < before.len() && before[j] == slot;
        assert(all[j] == slot);
    } else {
        let j = choose|j: int| 0 <= j < here.len() && here[j] == slot;
        assert(all[before.len() + j] == slot);
    }
}

/// A value depends on what its instruction read, lands where the instruction says and belongs to the block that it is
/// made in. Only a value in a temporary register can leave it.
pub proof fn law_value_is_recorded(
    s: SceneModel,
    w: WalkModel,
    dest: OperandModel,
    e: ExprModel,
    domain: Domain,
    reads: Seq<Slot>,
    saturate: bool,
    depth: nat,
)
    requires
        dest.reg_type != RegisterType::Null,
    ensures
        ({
            let def = defined(s, w, dest, e, domain, reads, saturate, depth).defs.last();
            &&& def.reads == reads
            &&& def.key == (dest.reg_type.raw(), index_of(dest))
            &&& def.lanes == written_lanes(dest)
            &&& def.block == w.block
            &&& def.looped == w.looped
            &&& def.fixed <==> dest.reg_type != RegisterType::Temp
        }),
{
    let key = (dest.reg_type.raw(), index_of(dest));
    lemma_register_only_reads(s, started_over(s, w, key), dest, written_lanes(dest));
}

/// A read that comes down to one value counts as a read of it, and one from another block as a distant one; a read of
/// several values keeps each of them where it is.
pub proof fn law_read_is_counted(s: SceneModel, w: WalkModel, operand: OperandModel, lanes: Seq<u8>, i: int)
    requires
        operand.reg_type == RegisterType::Temp || operand.reg_type == RegisterType::Output,
        w.usage.len() == w.defs.len(),
        forall|c: int| 0 <= c < w.cells.len() ==> (#[trigger] w.cells[c]).id < w.defs.len(),
        forall|u: int| 0 <= u < w.usage.len() ==> (#[trigger] w.usage[u]).reads < usize::MAX,
        w.defs.len() <= usize::MAX,
        0 <= i < wanted(operand, lanes).len(),
    ensures
        ({
            let key = (operand.reg_type.raw(), index_of(operand));
            let after = read(s, w, operand, lanes);
            let owner = owner_of(w.cells, key, wanted(operand, lanes)[i], w.cells.len() as int);
            owner matches Some((id, _)) ==> if after.1.owner is Some {
                &&& after.1.owner == Some(id)
                &&& after.0.usage[id as int].reads == w.usage[id as int].reads + 1
                &&& after.0.usage[id as int].last == w.defs.len()
                &&& w.defs[id as int].block != w.block ==> after.0.usage[id as int].distant
            } else {
                after.0.usage[id as int].mixed
            }
        }),
{
    let comps = wanted(operand, lanes);
    let key = (operand.reg_type.raw(), index_of(operand));
    let found = owners(w.cells, key, comps);
    assert forall|c: int| 0 <= c < found.len() implies ((#[trigger] found[c]) matches Some((id, _)) ==> id
        < w.usage.len()) by {
        lemma_owner_made(w, key, comps[c], w.cells.len() as int);
    }
    assert(found[i] == owner_of(w.cells, key, comps[i], w.cells.len() as int));
    if sole_owner(found) is None {
        let seen = WalkModel { touches: w.touches + touched(key, comps, w.defs.len() as usize), ..w };
        let blurred = WalkModel { usage: mixed(w.usage, found, found.len() as int), ..seen };
        lemma_mixed_marks(w.usage, found, found.len() as int, i);
        assert(register(s, blurred, operand, comps).0 == blurred);
    } else {
        assert(owned_by(found[i], sole_owner(found)->0));
    }
}

proof fn lemma_mixed_marks(usage: Seq<Usage>, found: Seq<Option<(usize, u8)>>, n: int, i: int)
    requires
        0 <= n <= found.len(),
        0 <= i < n,
        forall|c: int| 0 <= c < found.len() ==> ((#[trigger] found[c]) matches Some((id, _)) ==> id < usage.len()),
    ensures
        found[i] matches Some((id, _)) ==> mixed(usage, found, n)[id as int].mixed,
        mixed(usage, found, n).len() == usage.len(),
    decreases n,
{
    lemma_mixed_alike(usage, found, n - 1);
    if i < n - 1 {
        lemma_mixed_marks(usage, found, n - 1, i);
    }
}

/// An instruction with several destinations writes them a line at a time, and every line carries what moved into the
/// instruction. So a value that the instruction was the last to read, and that is not held back, was computed from
/// nothing that an earlier line of it writes.
pub proof fn law_earlier_line_disturbs_nothing(
    w: WalkModel,
    operands: Seq<OperandModel>,
    values: Seq<Option<(ExprModel, Domain)>>,
    n: int,
    d: int,
    later: int,
    q: int,
)
    requires
        0 <= d < n <= values.len(),
        d < later < values.len(),
        d < operands.len(),
        values[d] is Some,
        values[later] is Some,
        0 <= q < w.waiting.len(),
        w.waiting[q].1 < w.usage.len(),
        w.usage[w.waiting[q].1 as int].last == w.defs.len() as usize,
        !crossed(w, operands, values, n).usage[w.waiting[q].1 as int].stale,
    ensures
        ({
            let slot = w.waiting[q].0;
            let dest = operands[d];
            !(slot.0 == dest.reg_type.raw() && slot.1 == index_of(dest) && written_lanes(dest).contains(slot.2))
        }),
    decreases n,
{
    let before = crossed(w, operands, values, n - 1);
    lemma_crossed_alike(w, operands, values, n - 1);
    let dest = operands[n - 1];
    let id = w.waiting[q].1 as int;
    lemma_overtaken(
        before.usage,
        before.waiting,
        (dest.reg_type.raw(), index_of(dest)),
        written_lanes(dest),
        before.defs.len() as usize,
        before.waiting.len() as int,
    );
    assert(before.usage[id].last == w.usage[id].last);
    if d < n - 1 {
        assert(!before.usage[id].stale);
        law_earlier_line_disturbs_nothing(w, operands, values, n - 1, d, later, q);
    } else {
        assert(another_behind(values, d)) by {
            assert(values[later] is Some);
        }
        let slot = w.waiting[q].0;
        if slot.0 == dest.reg_type.raw() && slot.1 == index_of(dest) && written_lanes(dest).contains(slot.2) {
            let lanes = written_lanes(dest);
            let i = choose|i: int| 0 <= i < lanes.len() && lanes[i] == slot.2;
            assert(super::walk::has_lane(lanes, slot.2)) by {
                assert(lanes[i] == slot.2);
            }
        }
    }
}

} // verus!
