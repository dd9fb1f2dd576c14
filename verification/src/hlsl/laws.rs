//! What holds of every reading of a shader.
use super::body::only_read;
use super::expr::{Domain, ExprModel};
use super::machine::index_of;
use super::names::Names;
use super::structure::StmtModel;
use super::tidy::position;
use super::value::{apart, flag, moves, moving, named_apart, DefModel, Slot, Usage};
use super::walk::{
    assigned, body, condition, counting, crossed, defined, defined_all, fresh, index, instruction, lined, nested,
    own_name, read, read_all, register, settled, spelling, statement, started_over, times_issued, version_of, walked,
    SceneModel, WalkModel,
};
use super::words::{lemma_all_lines_unbroken, lines_in};
use super::{band, decompiled, kinds_in, register_kind, Reading};
use super::tidy::{placed, text_less, WidthModel};
use crate::shex::ir::{IndexModel, InstructionModel, OperandModel, Program, RegisterType};
use crate::text::{dec, digit};
use vstd::prelude::*;

verus! {

/// A reading that settled is the one its own decisions describe: the walk it is made from moved the values, and named
/// apart the values, that looking at the walk says can be.
pub proof fn law_settled_reading_describes_itself(
    s: SceneModel,
    tree: Seq<StmtModel>,
    depth: nat,
    before: WalkModel,
    folded: Seq<bool>,
    localised: Seq<bool>,
    left: nat,
)
    ensures
        match settled(s, tree, depth, before, folded, localised, left) {
            Some(w) => exists|scene: SceneModel|
                w == #[trigger] walked(scene, tree, depth) && scene.folded == moving(w.defs, w.usage) && scene.localised
                    == apart(w.defs, w.usage) && !scene.cautious && scene.instructions == s.instructions && scene.names
                    == s.names,
            None => true,
        },
    decreases left,
{
    if left > 0 {
        let scene = SceneModel {
            folded,
            localised,
            splits: super::value::fresh_starts(before.defs, before.touches, folded, localised),
            cautious: false,
            ..s
        };
        let w = walked(scene, tree, depth);
        let again = moving(w.defs, w.usage);
        let held = apart(w.defs, w.usage);
        if !(again == folded && held == localised) {
            law_settled_reading_describes_itself(s, tree, depth, w, again, held, (left - 1) as nat);
        }
    }
}

/// A value that moves to its reader is read, by readers that take it alone and in the block that made it, before
/// anything it depends on changes; and no value both moves and takes a name of its own. A value the output has to name
/// does neither.
pub proof fn law_what_moves_is_read(defs: Seq<DefModel>, usage: Seq<Usage>, id: int)
    ensures
        moves(defs, usage, id) ==> usage[id].reads > 0 && !usage[id].mixed && !usage[id].distant && !usage[id].stale,
        !(moves(defs, usage, id) && named_apart(defs, usage, id)),
        defs[id].fixed ==> !moves(defs, usage, id) && !named_apart(defs, usage, id),
{
}

pub proof fn lemma_index_only_reads(s: SceneModel, w: WalkModel, indices: Seq<IndexModel>, at: int)
    ensures
        only_read(w, index(s, w, indices, at).0),
    decreases indices, 0int,
{
    if 0 <= at < indices.len() {
        match indices[at] {
            IndexModel::Relative(held) => {
                lemma_read_only_reads(s, w, *held, seq![0u8]);
            },
            IndexModel::RelativePlusImm(_, held) => {
                lemma_read_only_reads(s, w, *held, seq![0u8]);
            },
            _ => {},
        }
    }
}

pub proof fn lemma_register_only_reads(s: SceneModel, w: WalkModel, operand: OperandModel, comps: Seq<u8>)
    ensures
        only_read(w, register(s, w, operand, comps).0),
    decreases operand, 1int,
{
    lemma_index_only_reads(s, w, operand.indices, 0);
    lemma_index_only_reads(s, w, operand.indices, 1);
}

pub proof fn lemma_read_only_reads(s: SceneModel, w: WalkModel, operand: OperandModel, lanes: Seq<u8>)
    ensures
        only_read(w, read(s, w, operand, lanes).0),
    decreases operand, 2int,
{
    let comps = super::walk::wanted(operand, lanes);
    lemma_register_only_reads(s, w, operand, comps);
    let key = (operand.reg_type.raw(), index_of(operand));
    let held = super::walk::owners(w.cells, key, comps);
    let blurred = WalkModel {
        usage: super::walk::mixed(w.usage, held, held.len() as int),
        touches: w.touches + super::walk::touched(key, comps, w.defs.len() as usize),
        ..w
    };
    lemma_register_only_reads(s, blurred, operand, comps);
}

/// A value that reaches a destination is recorded once, and written down in one line unless it moves to its reader.
pub proof fn law_value_is_written_or_moves(
    s: SceneModel,
    w: WalkModel,
    dest: OperandModel,
    e: ExprModel,
    domain: Domain,
    reads: Seq<Slot>,
    saturate: bool,
    depth: nat,
)
    requires
        dest.reg_type != RegisterType::Null,
    ensures
        ({
            let after = defined(s, w, dest, e, domain, reads, saturate, depth);
            &&& after.defs.len() == w.defs.len() + 1
            &&& after.out.len() == w.out.len() + if flag(s.folded, w.defs.len() as int) {
                0int
            } else {
                1
            }
        }),
{
    let key = (dest.reg_type.raw(), index_of(dest));
    lemma_register_only_reads(s, started_over(s, w, key), dest, super::machine::written_lanes(dest));
}

pub proof fn lemma_read_all_only_reads(
    s: SceneModel,
    w: WalkModel,
    operands: Seq<OperandModel>,
    lanes: Seq<u8>,
    from: int,
    to: int,
)
    ensures
        only_read(w, read_all(s, w, operands, lanes, from, to).0),
    decreases to - from,
{
    if to > from {
        lemma_read_all_only_reads(s, w, operands, lanes, from, to - 1);
        lemma_read_only_reads(s, read_all(s, w, operands, lanes, from, to - 1).0, operands[to - 1], lanes);
    }
}

/// A value of an instruction goes to a destination that keeps it.
pub open spec fn lands_somewhere(i: InstructionModel, values: Seq<Option<(ExprModel, Domain)>>, n: int) -> bool {
    exists|k: int|
        0 <= k < n && (#[trigger] values[k]) is Some && k < i.kind.operands().len() && i.kind.operands()[k].reg_type
            != RegisterType::Null
}

proof fn lemma_defined_all_grows(
    s: SceneModel,
    w: WalkModel,
    i: InstructionModel,
    values: Seq<Option<(ExprModel, Domain)>>,
    reads: Seq<Slot>,
    depth: nat,
    n: int,
)
    requires
        0 <= n <= values.len(),
    ensures
        ({
            let after = defined_all(s, w, i, values, reads, depth, n);
            &&& after.defs.len() >= w.defs.len()
            &&& after.out.len() >= w.out.len()
            &&& lands_somewhere(i, values, n) ==> after.defs.len() > w.defs.len()
        }),
    decreases n,
{
    if n > 0 {
        lemma_defined_all_grows(s, w, i, values, reads, depth, n - 1);
        let before = defined_all(s, w, i, values, reads, depth, n - 1);
        match values[n - 1] {
            Some((e, domain)) => {
                if n - 1 < i.kind.operands().len() {
                    let dest = i.kind.operands()[n - 1];
                    if dest.reg_type != RegisterType::Null {
                        law_value_is_written_or_moves(
                            s,
                            before,
                            dest,
                            super::walk::narrowed(i.opcode, dest, e),
                            domain,
                            reads,
                            i.saturate,
                            depth,
                        );
                    }
                }
            },
            None => {},
        }
        assert(lands_somewhere(i, values, n) && !lands_somewhere(i, values, n - 1) ==> values[n - 1] is Some && n - 1
            < i.kind.operands().len() && i.kind.operands()[n - 1].reg_type != RegisterType::Null);
    }
}

pub proof fn lemma_crossed_keeps(
    w: WalkModel,
    operands: Seq<OperandModel>,
    values: Seq<Option<(ExprModel, Domain)>>,
    n: int,
)
    ensures
        crossed(w, operands, values, n) == (WalkModel { usage: crossed(w, operands, values, n).usage, ..w }),
    decreases n,
{
    if n > 0 {
        lemma_crossed_keeps(w, operands, values, n - 1);
    }
}

/// The values an instruction computes at a point of a walk.
pub open spec fn values_at(s: SceneModel, w: WalkModel, at: int) -> Seq<Option<(ExprModel, Domain)>> {
    let i = s.instructions[at];
    let operands = i.kind.operands();
    let count = super::machine::destination_count(i.opcode) as int;
    let lanes = super::machine::lanes_written(operands, count, 0);
    let held = read_all(s, w, operands, super::walk::source_lanes(i.opcode, lanes), count, operands.len() as int).1;
    super::fetch::evaluated(s.names, s.instructions, i.opcode, held.sources, operands, count, lanes.len() as usize).values
}

/// The walk past an instruction that computes something never loses it: either a line is written for it or a value is
/// recorded, unless every value it computes is discarded.
pub proof fn law_no_instruction_is_lost(s: SceneModel, w: WalkModel, at: int, depth: nat)
    requires
        0 <= at < s.instructions.len(),
        values_at(s, w, at).len() == 0 || lands_somewhere(
            s.instructions[at],
            values_at(s, w, at),
            values_at(s, w, at).len() as int,
        ),
    ensures
        ({
            let after = assigned(s, w, at, depth);
            after.out.len() > w.out.len() || after.defs.len() > w.defs.len()
        }),
{
    let i = s.instructions[at];
    let operands = i.kind.operands();
    let count = super::machine::destination_count(i.opcode) as int;
    if !(count == 0 || operands.len() <= count) {
        let lanes = super::machine::lanes_written(operands, count, 0);
        let taken = super::walk::source_lanes(i.opcode, lanes);
        lemma_read_all_only_reads(s, w, operands, taken, count, operands.len() as int);
        let (after, held) = read_all(s, w, operands, taken, count, operands.len() as int);
        let r = super::fetch::evaluated(
            s.names,
            s.instructions,
            i.opcode,
            held.sources,
            operands,
            count,
            lanes.len() as usize,
        );
        let ready = super::walk::helped(after, r.helper);
        if r.values.len() > 0 {
            let n = r.values.len() as int;
            lemma_crossed_keeps(ready, operands, r.values, n);
            lemma_defined_all_grows(
                s,
                crossed(ready, operands, r.values, n),
                i,
                r.values,
                held.reads,
                depth,
                n,
            );
        }
    }
}

/// A number is fixed by its decimal text.
pub proof fn lemma_dec_injective(a: nat, b: nat)
    requires
        dec(a) == dec(b),
    ensures
        a == b,
    decreases a,
{
    if a < 10 && b < 10 {
        assert(dec(a)[0] == digit(a as int));
        assert(dec(b)[0] == digit(b as int));
    } else if a < 10 {
        assert(dec(b) == dec(b / 10).push(digit((b % 10) as int)));
        lemma_dec_some(b / 10);
        assert(dec(a).len() == 1);
    } else if b < 10 {
        assert(dec(a) == dec(a / 10).push(digit((a % 10) as int)));
        lemma_dec_some(a / 10);
        assert(dec(b).len() == 1);
    } else {
        let x = dec(a / 10);
        let y = dec(b / 10);
        assert(dec(a) == x.push(digit((a % 10) as int)));
        assert(dec(b) == y.push(digit((b % 10) as int)));
        assert(dec(a).drop_last() =~= x);
        assert(dec(b).drop_last() =~= y);
        assert(dec(a).last() == digit((a % 10) as int));
        assert(dec(b).last() == digit((b % 10) as int));
        lemma_dec_injective(a / 10, b / 10);
    }
}

proof fn lemma_dec_some(n: nat)
    ensures
        dec(n).len() >= 1,
    decreases n,
{
    if n >= 10 {
        lemma_dec_some(n / 10);
    }
}

proof fn lemma_times_grow(issued: Seq<Seq<char>>, stem: Seq<char>, i: int, j: int)
    requires
        0 <= i <= j <= issued.len(),
    ensures
        times_issued(issued, stem, i) <= times_issued(issued, stem, j),
    decreases j,
{
    if i < j {
        lemma_times_grow(issued, stem, i, j - 1);
    }
}

proof fn lemma_times_taken(issued: Seq<Seq<char>>, stem: Seq<char>, i: int, n: int)
    requires
        0 <= n <= i <= issued.len(),
    ensures
        times_issued(issued.take(i), stem, n) == times_issued(issued, stem, n),
    decreases n,
{
    if n > 0 {
        lemma_times_taken(issued, stem, i, n - 1);
    }
}

/// Two values that would have gone to the same lanes of the same register never share a name of their own.
pub proof fn law_own_names_differ(issued: Seq<Seq<char>>, stem: Seq<char>, i: int, j: int)
    requires
        0 < i < j <= issued.len(),
        issued[i - 1] == stem,
        issued[j - 1] == stem,
    ensures
        own_name(issued.take(i), stem) != own_name(issued.take(j), stem),
{
    lemma_times_taken(issued, stem, i, i);
    lemma_times_taken(issued, stem, j, j);
    lemma_times_grow(issued, stem, 0, i - 1);
    lemma_times_grow(issued, stem, i, j - 1);
    let a = times_issued(issued, stem, i);
    let b = times_issued(issued, stem, j);
    assert(1 <= a < b);
    let first = own_name(issued.take(i), stem);
    let second = own_name(issued.take(j), stem);
    if first == second {
        let n = stem.len() as int;
        reveal_strlit("_");
        assert(second.skip(n + 1) =~= dec(b));
        if a == 1 {
            assert(second.len() == n + 1 + dec(b).len());
        } else {
            assert(first.skip(n + 1) =~= dec(a));
            lemma_dec_injective(a, b);
        }
    }
}

/// A register that starts over goes by a name it did not have before.
pub proof fn law_fresh_start_renames(versions: Seq<(u32, u32)>, index: u32)
    ensures
        spelling(versions.push((RegisterType::Temp.raw(), index)), index) != spelling(versions, index),
{
    let key = (RegisterType::Temp.raw(), index);
    let more = versions.push(key);
    lemma_versions_pushed(versions, key, key, versions.len() as int);
    let n = version_of(versions, key, versions.len() as int);
    assert(version_of(more, key, more.len() as int) == n + 1);
    let stem = "r"@ + dec(index as nat);
    let k = stem.len() as int;
    reveal_strlit("_");
    let after = spelling(more, index);
    let before = spelling(versions, index);
    assert(after.skip(k + 1) =~= dec(n + 2));
    if after == before {
        if n == 0 {
            assert(after.len() == k + 1 + dec(n + 2).len());
        } else {
            assert(before.skip(k + 1) =~= dec(n + 1));
            lemma_dec_injective(n + 2, n + 1);
        }
    }
}

proof fn lemma_versions_pushed(versions: Seq<(u32, u32)>, one: (u32, u32), key: (u32, u32), n: int)
    requires
        0 <= n <= versions.len(),
    ensures
        version_of(versions.push(one), key, n) == version_of(versions, key, n),
    decreases n,
{
    if n > 0 {
        lemma_versions_pushed(versions, one, key, n - 1);
    }
}

proof fn lemma_position(list: Seq<Seq<char>>, name: Seq<char>, from: int)
    requires
        0 <= from <= list.len(),
    ensures
        from <= position(list, name, from) <= list.len(),
        position(list, name, from) < list.len() ==> list[position(list, name, from)] == name,
    decreases list.len() - from,
{
    if from < list.len() && list[from] != name {
        lemma_position(list, name, from + 1);
    }
}

/// Renumbering keeps registers apart: two registers the body mentions get the same number only where they are one.
pub proof fn law_renumbering_keeps_registers_apart(met: Seq<Seq<char>>, a: Seq<char>, b: Seq<char>)
    requires
        position(met, a, 0) < met.len(),
        position(met, b, 0) < met.len(),
        dec(position(met, a, 0) as nat) == dec(position(met, b, 0) as nat),
    ensures
        a == b,
{
    lemma_position(met, a, 0);
    lemma_position(met, b, 0);
    lemma_dec_injective(position(met, a, 0) as nat, position(met, b, 0) as nat);
}

proof fn lemma_placed_keeps(list: Seq<Seq<char>>, text: Seq<char>, from: int, other: Seq<char>)
    requires
        0 <= from <= list.len(),
    ensures
        list.contains(other) ==> placed(list, text, from).contains(other),
        placed(list, text, from).contains(text),
    decreases list.len() - from,
{
    if from >= list.len() || text_less(text, list[from], 0) {
        let after = list.insert(from, text);
        assert(after[from] == text);
        if list.contains(other) {
            let k = choose|k: int| 0 <= k < list.len() && list[k] == other;
            if k < from {
                assert(after[k] == other);
            } else {
                assert(after[k + 1] == other);
            }
        }
    } else if list[from] == text {
        assert(list[from] == text);
    } else {
        lemma_placed_keeps(list, text, from + 1, other);
    }
}

/// Every register the body names is declared: its type is among those declared, and it is among the registers of that
/// type.
pub proof fn law_every_register_is_declared(
    table: Seq<WidthModel>,
    kinds: Seq<(Seq<char>, bool)>,
    registers: Seq<Seq<char>>,
    i: int,
    n: int,
)
    requires
        0 <= i < n <= registers.len(),
    ensures
        kinds_in(table, kinds, registers, n).contains(register_kind(table, kinds, registers[i])),
        band(table, kinds, registers, register_kind(table, kinds, registers[i]), n).contains(registers[i]),
    decreases n,
{
    let kind = register_kind(table, kinds, registers[i]);
    let here = register_kind(table, kinds, registers[n - 1]);
    lemma_placed_keeps(kinds_in(table, kinds, registers, n - 1), here, 0, kind);
    let before = band(table, kinds, registers, kind, n - 1);
    let after = band(table, kinds, registers, kind, n);
    if i < n - 1 {
        law_every_register_is_declared(table, kinds, registers, i, n - 1);
        let k = choose|k: int| 0 <= k < before.len() && before[k] == registers[i];
        assert(after[k] == registers[i]);
    } else {
        assert(after == before.push(registers[i]));
        assert(after[before.len() as int] == registers[i]);
    }
}

/// A walk that renames nothing: no register starts over and no value takes a name of its own.
pub open spec fn unnamed(before: WalkModel, after: WalkModel) -> bool {
    after.renamed == before.renamed && after.versions == before.versions && after.issued == before.issued
}

/// The walk goes by no names of its own.
pub open spec fn names_nothing(s: SceneModel) -> bool {
    s.splits.len() == 0 && s.localised.len() == 0
}

proof fn lemma_defined_all_unnamed(
    s: SceneModel,
    w: WalkModel,
    i: InstructionModel,
    values: Seq<Option<(ExprModel, Domain)>>,
    reads: Seq<Slot>,
    depth: nat,
    n: int,
)
    requires
        names_nothing(s),
    ensures
        unnamed(w, defined_all(s, w, i, values, reads, depth, n)),
    decreases n,
{
    if n > 0 {
        lemma_defined_all_unnamed(s, w, i, values, reads, depth, n - 1);
        let before = defined_all(s, w, i, values, reads, depth, n - 1);
        if n - 1 < i.kind.operands().len() {
            let dest = i.kind.operands()[n - 1];
            let key = (dest.reg_type.raw(), index_of(dest));
            lemma_register_only_reads(s, started_over(s, before, key), dest, super::machine::written_lanes(dest));
        }
    }
}

pub proof fn lemma_condition_only_reads(s: SceneModel, w: WalkModel, at: int)
    ensures
        only_read(w, condition(s, w, at).0),
{
    if 0 <= at < s.instructions.len() && s.instructions[at].kind.operands().len() > 0 {
        lemma_read_only_reads(s, w, s.instructions[at].kind.operands()[0], seq![0u8]);
    }
}

proof fn lemma_instruction_unnamed(s: SceneModel, w: WalkModel, at: int, depth: nat)
    requires
        names_nothing(s),
    ensures
        unnamed(w, instruction(s, w, at, depth)),
{
    lemma_condition_only_reads(s, w, at);
    if 0 <= at < s.instructions.len() {
        let i = s.instructions[at];
        let operands = i.kind.operands();
        let count = super::machine::destination_count(i.opcode) as int;
        let lanes = super::machine::lanes_written(operands, count, 0);
        let taken = super::walk::source_lanes(i.opcode, lanes);
        lemma_read_all_only_reads(s, w, operands, taken, count, operands.len() as int);
        let (after, held) = read_all(s, w, operands, taken, count, operands.len() as int);
        let r = super::fetch::evaluated(
            s.names,
            s.instructions,
            i.opcode,
            held.sources,
            operands,
            count,
            lanes.len() as usize,
        );
        let ready = super::walk::helped(after, r.helper);
        let n = r.values.len() as int;
        lemma_crossed_keeps(ready, operands, r.values, n);
        lemma_defined_all_unnamed(s, crossed(ready, operands, r.values, n), i, r.values, held.reads, depth, n);
    }
}

proof fn lemma_body_unnamed(s: SceneModel, w: WalkModel, tree: Seq<StmtModel>, n: int, depth: nat)
    requires
        names_nothing(s),
    ensures
        unnamed(w, body(s, w, tree, n, depth)),
    decreases tree, n,
{
    if 0 < n <= tree.len() {
        lemma_body_unnamed(s, w, tree, n - 1, depth);
        lemma_statement_unnamed(s, body(s, w, tree, n - 1, depth), tree[n - 1], depth);
    }
}

proof fn lemma_statement_unnamed(s: SceneModel, w: WalkModel, stmt: StmtModel, depth: nat)
    requires
        names_nothing(s),
    ensures
        unnamed(w, statement(s, w, stmt, depth)),
    decreases stmt, 0int,
{
    match stmt {
        StmtModel::Op(at) => {
            lemma_instruction_unnamed(s, w, at, depth);
        },
        StmtModel::If { at, yes, els } => {
            lemma_condition_only_reads(s, w, at);
            let (tested, test) = condition(s, w, at);
            let opened = lined(lined(tested, depth, "if ("@ + test + ")"@), depth, "{"@);
            let inner = WalkModel { block: (opened.blocks + 1) as usize, blocks: (opened.blocks + 1) as usize, ..opened };
            lemma_body_unnamed(s, inner, yes, yes.len() as int, depth + 1);
            let first = nested(s, opened, yes, depth + 1);
            let again = lined(lined(lined(first, depth, "}"@), depth, "else"@), depth, "{"@);
            let second = WalkModel { block: (again.blocks + 1) as usize, blocks: (again.blocks + 1) as usize, ..again };
            lemma_body_unnamed(s, second, els, els.len() as int, depth + 1);
        },
        StmtModel::Loop(held) => {
            let opened = lined(lined(w, depth, "while (true)"@), depth, "{"@);
            let turning = WalkModel { looped: true, ..opened };
            let inner = WalkModel {
                block: (turning.blocks + 1) as usize,
                blocks: (turning.blocks + 1) as usize,
                ..turning
            };
            lemma_body_unnamed(s, inner, held, held.len() as int, depth + 1);
        },
    }
}

/// A plain reading rearranges nothing: no register is renamed and no value takes a name of its own.
pub proof fn law_plain_reading_names_nothing(s: SceneModel, tree: Seq<StmtModel>, depth: nat)
    ensures
        walked(counting(s), tree, depth).renamed.len() == 0,
        walked(counting(s), tree, depth).versions.len() == 0,
        walked(counting(s), tree, depth).issued.len() == 0,
{
    lemma_body_unnamed(counting(s), fresh(), tree, tree.len() as int, depth);
}

/// A decompiled shader has one entry to a line: no entry holds a line break, whatever the names hold.
pub proof fn law_one_entry_per_line(program: Program, names: Names, reading: Reading, i: int)
    requires
        0 <= i < decompiled(program, names, reading).lines.len(),
    ensures
        !decompiled(program, names, reading).lines[i].contains('\n'),
{
    let lines = decompiled(program, names, reading).lines;
    let body = decompiled(program, names, reading).body as int;
    assert forall|list: Seq<Seq<char>>, k: int| 0 <= k < lines_in(list, list.len() as int).len() implies !(
    #[trigger] lines_in(list, list.len() as int)[k]).contains('\n') by {
        lemma_all_lines_unbroken(list, list.len() as int);
    }
    if i < body {
        assert(lines[i] == lines.take(body)[i]);
    } else {
        assert(lines[i] == lines.skip(body)[i - body]);
    }
}

} // verus!
