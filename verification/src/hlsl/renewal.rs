//! What a read finds: the value that was written last, as the operand takes it, and nothing from before a register started
//! over.
use super::expr::{coerced, picked, rendered, unary_model, Domain, ExprModel};
use super::fetch::{coordinate_count, sampled_args, taken, trailing};
use super::lanes::{at_lanes, below};
use super::machine::first_lanes_of;
use super::meaning::{value, values, Meaning};
use super::value::{
    covering, read_between, reads_covered, run_finishes, starts_over, uncovered, writes, Cover, DefModel, Touch,
};
use super::walk::{
    arrived, condition, constant_bits, followed, gathered, landings, modified, owner_of, read, Cell, SceneModel,
    WalkModel,
};
use crate::shex::ir::OperandModel;
use crate::shex::opcodes::Opcode;
use vstd::prelude::*;

verus! {

/// A component that is covered was covered before or is one of the lanes.
proof fn lemma_covering(start: Cover, lanes: Seq<u8>, n: int, lane: u8)
    requires
        0 <= n <= lanes.len(),
        covering(start, lanes, n).takes(lane),
        !start.takes(lane),
    ensures
        exists|k: int| 0 <= k < n && (#[trigger] lanes[k]) % 4 == lane,
    decreases n,
{
    if n > 0 {
        if covering(start, lanes, n - 1).takes(lane) {
            lemma_covering(start, lanes, n - 1, lane);
            let k = choose|k: int| 0 <= k < n - 1 && (#[trigger] lanes[k]) % 4 == lane;
            assert(lanes[k] % 4 == lane);
        } else {
            assert(lanes[n - 1] % 4 == lane);
        }
    }
}

/// The values of a register between two places write a component.
spec fn written_between(defs: Seq<DefModel>, id: int, over: int, lane: u8) -> bool {
    exists|j: int|
        id <= j < over && 0 <= j < defs.len() && #[trigger] writes(defs[j], (defs[id].key.0, defs[id].key.1, lane))
}

proof fn lemma_run(defs: Seq<DefModel>, touches: Seq<Touch>, id: int, over: int, held: Cover, t: int)
    requires
        0 <= id < defs.len(),
        id <= over,
        run_finishes(defs, touches, id, over, held),
        forall|lane: u8| held.takes(lane) ==> #[trigger] written_between(defs, id, over, lane),
        0 <= t < touches.len(),
        touches[t].0 == defs[id].key,
        touches[t].2 > id,
    ensures
        exists|j: int|
            id <= j < touches[t].2 && 0 <= j < defs.len() && #[trigger] writes(
                defs[j],
                (defs[id].key.0, defs[id].key.1, touches[t].1),
            ),
    decreases defs.len() - over,
{
    if defs[over].key != defs[id].key || defs[over].block != 0 {
        assert forall|lane: u8| held.takes(lane) implies #[trigger] written_between(defs, id, over + 1, lane) by {
            assert(written_between(defs, id, over, lane));
            let j = choose|j: int|
                id <= j < over && 0 <= j < defs.len() && #[trigger] writes(defs[j], (defs[id].key.0, defs[id].key.1, lane));
            assert(writes(defs[j], (defs[id].key.0, defs[id].key.1, lane)));
        }
        lemma_run(defs, touches, id, over + 1, held, t);
    } else {
        let lanes = defs[over].lanes;
        let more = covering(held, lanes, lanes.len() as int);
        assert forall|lane: u8| more.takes(lane) implies #[trigger] written_between(defs, id, over + 1, lane) by {
            let slot = (defs[id].key.0, defs[id].key.1, lane);
            if held.takes(lane) {
                assert(written_between(defs, id, over, lane));
                let j = choose|j: int| id <= j < over && 0 <= j < defs.len() && #[trigger] writes(defs[j], slot);
                assert(writes(defs[j], slot));
            } else {
                lemma_covering(held, lanes, lanes.len() as int, lane);
                assert(writes(defs[over], slot));
            }
        }
        if reads_covered(touches, defs[id].key, over, more) {
            if touches[t].2 <= over {
                assert(read_between(touches, defs[id].key, id, over));
            }
            assert(more.takes(touches[t].1));
            assert(written_between(defs, id, over + 1, touches[t].1));
            let slot = (defs[id].key.0, defs[id].key.1, touches[t].1);
            let j = choose|j: int| id <= j < over + 1 && 0 <= j < defs.len() && #[trigger] writes(defs[j], slot);
            assert(writes(defs[j], slot));
        } else {
            lemma_run(defs, touches, id, over + 1, more, t);
        }
    }
}

/// A register that starts over at a value is never read again for what it held before: every component of it that is read
/// after the value was written by that value or a later one, before the read.
pub proof fn law_nothing_older_is_read(
    defs: Seq<DefModel>,
    touches: Seq<Touch>,
    folded: Seq<bool>,
    localised: Seq<bool>,
    id: int,
    t: int,
)
    requires
        0 <= id < defs.len(),
        starts_over(defs, touches, folded, localised, id),
        0 <= t < touches.len(),
        touches[t].0 == defs[id].key,
        touches[t].2 > id,
    ensures
        exists|j: int|
            id <= j < touches[t].2 && 0 <= j < defs.len() && #[trigger] writes(
                defs[j],
                (defs[id].key.0, defs[id].key.1, touches[t].1),
            ),
        defs[id].block == 0,
        exists|j: int| 0 <= j < id && (#[trigger] defs[j]).key == defs[id].key,
{
    lemma_run(defs, touches, id, id, uncovered(), t);
}

/// Two lanes of a list are not the same.
pub open spec fn distinct(lanes: Seq<u8>) -> bool {
    forall|i: int, j: int| 0 <= i < j < lanes.len() ==> (#[trigger] lanes[i]) % 4 != (#[trigger] lanes[j]) % 4
}

proof fn lemma_owner(cells: Seq<Cell>, more: Seq<Cell>, key: (u32, u32), lane: u8, n: int)
    requires
        0 <= n <= more.len(),
    ensures
        (forall|i: int| 0 <= i < n ==> (#[trigger] more[i]).key != key || more[i].lane != lane % 4) ==> owner_of(
            cells + more,
            key,
            lane,
            cells.len() + n,
        ) == owner_of(cells, key, lane, cells.len() as int),
    decreases n,
{
    if n > 0 {
        lemma_owner(cells, more, key, lane, n - 1);
        assert((cells + more)[cells.len() + n - 1] == more[n - 1]);
    } else {
        lemma_owner_prefix(cells, more, key, lane, cells.len() as int);
    }
}

proof fn lemma_owner_prefix(cells: Seq<Cell>, more: Seq<Cell>, key: (u32, u32), lane: u8, n: int)
    requires
        0 <= n <= cells.len(),
    ensures
        owner_of(cells + more, key, lane, n) == owner_of(cells, key, lane, n),
    decreases n,
{
    if n > 0 {
        lemma_owner_prefix(cells, more, key, lane, n - 1);
        assert((cells + more)[n - 1] == cells[n - 1]);
    }
}

proof fn lemma_lands(cells: Seq<Cell>, more: Seq<Cell>, key: (u32, u32), lane: u8, at: int, n: int)
    requires
        0 <= at < n <= more.len(),
        more[at].key == key,
        more[at].lane == lane % 4,
        forall|i: int| at < i < more.len() ==> (#[trigger] more[i]).lane != lane % 4,
    ensures
        owner_of(cells + more, key, lane, cells.len() + n) == Some((more[at].id, more[at].position)),
    decreases n,
{
    assert((cells + more)[cells.len() + n - 1] == more[n - 1]);
    if n - 1 > at {
        lemma_lands(cells, more, key, lane, at, n - 1);
    }
}

/// What a read finds after a value went to a register that is followed component by component: in the components that the
/// value was written to, the value, each in its own lane; in every other component and register, what was there before.
pub proof fn law_read_finds_the_last_write(w: WalkModel, def: DefModel, dest: OperandModel, key: (u32, u32), lane: u8)
    requires
        followed(dest.reg_type),
        distinct(def.lanes),
        def.lanes.len() <= 4,
        w.defs.len() <= usize::MAX,
    ensures
        ({
            let after = arrived(w, def, dest).cells;
            let found = owner_of(after, key, lane, after.len() as int);
            let before = owner_of(w.cells, key, lane, w.cells.len() as int);
            &&& key != def.key ==> found == before
            &&& (forall|i: int| 0 <= i < def.lanes.len() ==> (#[trigger] def.lanes[i]) % 4 != lane % 4) ==> found == before
            &&& key == def.key ==> forall|i: int|
                0 <= i < def.lanes.len() && (#[trigger] def.lanes[i]) % 4 == lane % 4 ==> found == Some(
                    (w.defs.len() as usize, i as u8),
                )
        }),
{
    let id = w.defs.len() as usize;
    let more = landings(def.key, def.lanes, id);
    let after = arrived(w, def, dest).cells;
    assert(after =~= w.cells + more);
    lemma_owner(w.cells, more, key, lane, more.len() as int);
    if key == def.key {
        assert forall|i: int| 0 <= i < def.lanes.len() && (#[trigger] def.lanes[i]) % 4 == lane % 4 implies owner_of(
            after,
            key,
            lane,
            after.len() as int,
        ) == Some((w.defs.len() as usize, i as u8)) by {
            assert forall|j: int| i < j < more.len() implies (#[trigger] more[j]).lane != lane % 4 by {
                assert(def.lanes[i] % 4 != def.lanes[j] % 4);
            }
            lemma_lands(w.cells, more, key, lane, i, more.len() as int);
        }
    }
    if forall|i: int| 0 <= i < def.lanes.len() ==> (#[trigger] def.lanes[i]) % 4 != lane % 4 {
        assert forall|i: int| 0 <= i < more.len() implies (#[trigger] more[i]).key != key || more[i].lane != lane % 4 by {
            assert(def.lanes[i] % 4 != lane % 4);
        }
    }
}

/// The absolute value is taken before the sign is turned round, as the machine does.
pub proof fn law_modifiers_apply_in_order<V>(m: Meaning<V>, operand: OperandModel, e: ExprModel)
    ensures
        value(m, modified(operand, e)) == ({
            let v = if operand.abs { m.f1("abs"@, value(m, e)) } else { value(m, e) };
            if operand.negate { m.un("-"@, v) } else { v }
        }),
{
    reveal_with_fuel(value, 3);
    assert(values(m, seq![e]) =~= seq![value(m, e)]);
}

/// Components that are gathered mean, lane by lane, the components they were.
pub proof fn law_gathered_components_keep_their_lanes<V>(m: Meaning<V>, parts: Seq<(Seq<char>, u8)>, lane: Seq<u8>)
    requires
        lane.len() == 1,
        lane[0] < parts.len(),
        forall|base: Seq<char>, swizzle: Seq<u8>|
            lane[0] < swizzle.len() ==> #[trigger] m.take(m.reg(base, swizzle), lane) == m.reg(
                base,
                at_lanes(swizzle, lane),
            ),
        forall|list: Seq<V>| lane[0] < list.len() ==> #[trigger] m.take(m.beside(list), lane) == list[lane[0] as int],
    ensures
        m.take(value(m, gathered(parts)), lane) == m.reg(parts[lane[0] as int].0, seq![parts[lane[0] as int].1]),
{
    let i = lane[0] as int;
    let e = gathered(parts);
    match e {
        ExprModel::Read { base, swizzle } => {
            assert(at_lanes(swizzle, lane) =~= seq![parts[i].1]);
        },
        _ => {
            let list = values(m, e->Vector_0);
            assert(list[i] == value(m, e->Vector_0[i]));
            assert(m.take(m.beside(list), lane) == list[i]);
        },
    }
}

/// A vector constant is read by component, and a scalar goes for every lane.
pub proof fn law_constant_is_read_by_component(words: Seq<u32>, comps: Seq<u8>)
    requires
        comps.len() > 0,
        words.len() > 0,
        words.len() > 1 ==> below(comps, words.len()),
    ensures
        words.len() == 1 ==> constant_bits(words, comps) == words,
        words.len() > 1 ==> constant_bits(words, comps) == at_lanes(words, comps),
{
    if words.len() > 1 {
        lemma_picked(words, comps, comps.len());
        assert(at_lanes(words, comps).take(comps.len() as int) =~= at_lanes(words, comps));
    }
}

proof fn lemma_picked<T>(list: Seq<T>, lanes: Seq<u8>, n: nat)
    requires
        n <= lanes.len(),
        below(lanes, list.len()),
    ensures
        picked(list, lanes, n) == at_lanes(list, lanes).take(n as int),
    decreases n,
{
    if n > 0 {
        lemma_picked(list, lanes, (n - 1) as nat);
        assert(lanes[n - 1] < list.len());
    }
    assert(picked(list, lanes, n) =~= at_lanes(list, lanes).take(n as int));
}

/// A test of a constant is decided: it holds where the constant is other than nought and the instruction asks for that, or
/// neither. Any other test is the condition itself, or its opposite where the instruction asks for nought.
pub proof fn law_condition_says_what_is_tested(s: SceneModel, w: WalkModel, at: int)
    requires
        0 <= at < s.instructions.len(),
        s.instructions[at].kind.operands().len() > 0,
    ensures
        ({
            let i = s.instructions[at];
            let r = read(s, w, i.kind.operands()[0], seq![0u8]).1;
            let text = condition(s, w, at).1;
            let test = coerced(r.expr, r.domain, Domain::Bool);
            &&& r.expr is Literal && r.expr->bits.len() > 0 && r.expr->bits[0] != 0 && i.test_nonzero ==> text == "true"@
            &&& r.expr is Literal && r.expr->bits.len() > 0 && r.expr->bits[0] != 0 && !i.test_nonzero ==> text == "false"@
            &&& r.expr is Literal && r.expr->bits.len() > 0 && r.expr->bits[0] == 0 && i.test_nonzero ==> text == "false"@
            &&& r.expr is Literal && r.expr->bits.len() > 0 && r.expr->bits[0] == 0 && !i.test_nonzero ==> text == "true"@
            &&& !(r.expr is Literal) && i.test_nonzero ==> text == rendered(test, 1)
            &&& !(r.expr is Literal) && !i.test_nonzero ==> text == rendered(unary_model("!"@, test), 1)
        }),
{
}

/// A sampling call leads with its sampler and then the coordinate, of as many components as the texture has dimensions and
/// one more for an array; what else it takes follows.
pub proof fn law_sampling_arguments(
    opcode: Opcode,
    sampler: Seq<char>,
    sources: Seq<(ExprModel, Domain)>,
    count: nat,
)
    ensures
        ({
            let args = sampled_args(opcode, Some(sampler), sources, count);
            &&& args.len() >= 2
            &&& args[0] == (ExprModel::Read { base: sampler, swizzle: Seq::empty() })
            &&& args[1] == taken(sources, 0, Domain::Float, first_lanes_of(count))
            &&& args.skip(2) =~= trailing(opcode, sources)
        }),
        sources.len() > 3 && (opcode is SampleB || opcode is SampleL || opcode is SampleC || opcode is SampleCLz) ==> trailing(
            opcode,
            sources,
        ) =~= seq![taken(sources, 3, Domain::Float, seq![0u8])],
        sources.len() > 4 && opcode is SampleD ==> trailing(opcode, sources) =~= seq![
            taken(sources, 3, Domain::Float, seq![0u8, 1]),
            taken(sources, 4, Domain::Float, seq![0u8, 1]),
        ],
        opcode is Sample || opcode is Gather4 ==> trailing(opcode, sources).len() == 0,
{
}

/// How many coordinates a texture takes: those of its own dimensions, and one more where it is an array.
pub proof fn law_coordinates_by_dimension()
    ensures
        coordinate_count(Some("buffer"@)) == 1,
        coordinate_count(Some("texture1d"@)) == 1,
        coordinate_count(Some("texture2d"@)) == 2,
        coordinate_count(Some("texture2dms"@)) == 2,
        coordinate_count(Some("texture3d"@)) == 3,
        coordinate_count(Some("texturecube"@)) == 3,
        coordinate_count(Some("texture1darray"@)) == coordinate_count(Some("texture1d"@)) + 1,
        coordinate_count(Some("texture2darray"@)) == coordinate_count(Some("texture2d"@)) + 1,
        coordinate_count(Some("texture2dmsarray"@)) == coordinate_count(Some("texture2dms"@)) + 1,
        coordinate_count(Some("texturecubearray"@)) == coordinate_count(Some("texturecube"@)) + 1,
{
    reveal_strlit("buffer");
    reveal_strlit("texture1d");
    reveal_strlit("texture2d");
    reveal_strlit("texture2dms");
    reveal_strlit("texture3d");
    reveal_strlit("texturecube");
    reveal_strlit("texture1darray");
    reveal_strlit("texture2darray");
    reveal_strlit("texture2dmsarray");
    reveal_strlit("texturecubearray");
    assert("texture1d"@[7] == '1' && "texture2d"@[7] == '2' && "texture3d"@[7] == '3');
    assert("texture1darray"@[7] == '1' && "texture2darray"@[7] == '2');
    assert("buffer"@.len() == 6 && "texture1d"@.len() == 9 && "texture2dms"@.len() == 11 && "texturecube"@.len() == 11
        && "texture2d"@.len() == 9 && "texture3d"@.len() == 9 && "texture1darray"@.len() == 14 && "texture2darray"@.len() == 14
        && "texture2dmsarray"@.len() == 16 && "texturecubearray"@.len() == 16);
    assert("texturecube"@[7] == 'c' && "texture2dms"@[7] == '2' && "texturecubearray"@[7] == 'c' && "texture2dmsarray"@[7]
        == '2');
}

} // verus!
