//! The instruction stream as nested blocks.
//!
//! The bytecode keeps its control flow structured: `if` and `endif` are matched markers, there are no jumps
//! and no subroutines, so recovering blocks is a walk over those markers.
use crate::shex::ir::Instruction;
use crate::shex::opcodes::Opcode;
use vstd::prelude::*;

verus! {

/// A statement, which is either an instruction or a block of them.
pub enum Stmt {
    Op(usize),
    /// `at` is the `if` itself, which carries the condition and the sense to test it in.
    If { at: usize, yes: Vec<Stmt>, els: Vec<Stmt> },
    Loop(Vec<Stmt>),
}

/// What a statement holds.
#[verifier::ext_equal]
pub enum StmtModel {
    Op(int),
    If { at: int, yes: Seq<StmtModel>, els: Seq<StmtModel> },
    Loop(Seq<StmtModel>),
}

impl Stmt {
    /// What the statement holds.
    pub open spec fn view(&self) -> StmtModel
        decreases self,
    {
        match self {
            Stmt::Op(at) => StmtModel::Op(*at as int),
            Stmt::If { at, yes, els } => StmtModel::If {
                at: *at as int,
                yes: Seq::new(
                    yes@.len(),
                    |i: int| if 0 <= i < yes@.len() { yes@[i]@ } else { StmtModel::Op(0) },
                ),
                els: Seq::new(
                    els@.len(),
                    |i: int| if 0 <= i < els@.len() { els@[i]@ } else { StmtModel::Op(0) },
                ),
            },
            Stmt::Loop(body) => StmtModel::Loop(
                Seq::new(
                    body@.len(),
                    |i: int| if 0 <= i < body@.len() { body@[i]@ } else { StmtModel::Op(0) },
                ),
            ),
        }
    }
}

/// What each statement of a list holds.
pub open spec fn stmt_models(list: Seq<Stmt>) -> Seq<StmtModel> {
    Seq::new(list.len(), |i: int| list[i]@)
}

/// What a block holds whose statements are a list.
pub proof fn lemma_block_model(s: Stmt)
    ensures
        s matches Stmt::If { at, yes, els } ==> s@ == (StmtModel::If {
            at: at as int,
            yes: stmt_models(yes@),
            els: stmt_models(els@),
        }),
        s matches Stmt::Loop(body) ==> s@ == StmtModel::Loop(stmt_models(body@)),
{
    match s {
        Stmt::If { at, yes, els } => {
            assert(s@->yes =~= stmt_models(yes@));
            assert(s@->els =~= stmt_models(els@));
        },
        Stmt::Loop(body) => {
            assert(s@->Loop_0 =~= stmt_models(body@));
        },
        _ => {},
    }
}

/// Deeper than anything a compiler emits, real shaders reaching about five. The cap only stops a malformed
/// stream of unclosed blocks from recursing away the stack.
pub const MAX_DEPTH: usize = 64;

/// The opcodes of a stream.
pub open spec fn opcodes(instructions: Seq<Instruction>) -> Seq<Opcode> {
    Seq::new(instructions.len(), |i: int| instructions[i].opcode)
}

/// A marker that closes a block.
pub open spec fn closes(opcode: Opcode) -> bool {
    opcode is Else || opcode is EndIf || opcode is EndLoop
}

/// An opcode stands at a place.
pub open spec fn stands(ops: Seq<Opcode>, at: int, opcode: Opcode) -> bool {
    0 <= at < ops.len() && ops[at] == opcode
}

/// Where reading goes on behind an opcode, where that opcode stands there.
pub open spec fn past(ops: Seq<Opcode>, at: int, opcode: Opcode) -> int {
    if stands(ops, at, opcode) {
        at + 1
    } else {
        at
    }
}

/// The statements from a place up to the marker closing the enclosing block, and where that marker stands.
pub open spec fn block(ops: Seq<Opcode>, at: int, depth: nat) -> (Seq<StmtModel>, int)
    decreases ops.len() - at,
    when 0 <= at <= ops.len()
    via block_decreases
{
    if at >= ops.len() || closes(ops[at]) {
        (Seq::empty(), at)
    } else if ops[at] is If && depth < 64 {
        let (yes, behind) = block(ops, at + 1, depth + 1);
        if !(at < behind <= ops.len()) {
            (Seq::empty(), at)
        } else {
            let from = past(ops, behind, Opcode::Else);
            let (els, end) = if stands(ops, behind, Opcode::Else) {
                block(ops, from, depth + 1)
            } else {
                (Seq::empty(), from)
            };
            let next = past(ops, end, Opcode::EndIf);
            if !(at < next <= ops.len()) {
                (Seq::empty(), at)
            } else {
                let (rest, last) = block(ops, next, depth);
                (seq![StmtModel::If { at, yes, els }] + rest, last)
            }
        }
    } else if ops[at] is Loop && depth < 64 {
        let (body, behind) = block(ops, at + 1, depth + 1);
        let next = past(ops, behind, Opcode::EndLoop);
        if !(at < next <= ops.len()) {
            (Seq::empty(), at)
        } else {
            let (rest, last) = block(ops, next, depth);
            (seq![StmtModel::Loop(body)] + rest, last)
        }
    } else {
        let (rest, last) = block(ops, at + 1, depth);
        (seq![StmtModel::Op(at)] + rest, last)
    }
}

#[via_fn]
proof fn block_decreases(ops: Seq<Opcode>, at: int, depth: nat) {
}

/// A block ends no earlier than it starts, and within the stream.
pub proof fn lemma_block_ends(ops: Seq<Opcode>, at: int, depth: nat)
    requires
        0 <= at <= ops.len(),
    ensures
        at <= block(ops, at, depth).1 <= ops.len(),
        block(ops, at, depth).1 == ops.len() || closes(ops[block(ops, at, depth).1]),
    decreases ops.len() - at,
{
    if at >= ops.len() || closes(ops[at]) {
    } else if ops[at] is If && depth < 64 {
        lemma_block_ends(ops, at + 1, depth + 1);
        let behind = block(ops, at + 1, depth + 1).1;
        let from = past(ops, behind, Opcode::Else);
        if stands(ops, behind, Opcode::Else) {
            lemma_block_ends(ops, from, depth + 1);
        }
        let end = if stands(ops, behind, Opcode::Else) {
            block(ops, from, depth + 1).1
        } else {
            from
        };
        lemma_block_ends(ops, past(ops, end, Opcode::EndIf), depth);
    } else if ops[at] is Loop && depth < 64 {
        lemma_block_ends(ops, at + 1, depth + 1);
        let behind = block(ops, at + 1, depth + 1).1;
        lemma_block_ends(ops, past(ops, behind, Opcode::EndLoop), depth);
    } else {
        lemma_block_ends(ops, at + 1, depth);
    }
}

/// The instruction stream from a place on as nested blocks. A marker that closes a block nothing opened stays a
/// plain statement rather than being dropped, so the reading never silently loses code a stream this walk did
/// not expect.
pub open spec fn structured(ops: Seq<Opcode>, at: int) -> Seq<StmtModel>
    decreases ops.len() - at,
    when 0 <= at <= ops.len()
    via structured_decreases
{
    if at >= ops.len() {
        Seq::empty()
    } else {
        let (stmts, end) = block(ops, at, 0);
        if !(at <= end < ops.len()) {
            stmts
        } else {
            stmts + seq![StmtModel::Op(end)] + structured(ops, end + 1)
        }
    }
}

#[via_fn]
proof fn structured_decreases(ops: Seq<Opcode>, at: int) {
}

fn opens_with(instructions: &Vec<Instruction>, at: usize, opcode: Opcode) -> (r: bool)
    ensures
        r == stands(opcodes(instructions@), at as int, opcode),
{
    at < instructions.len() && instructions[at].opcode == opcode
}

/// Statements from a place up to the marker closing the enclosing block, and where that marker stands.
fn block_at(instructions: &Vec<Instruction>, start: usize, depth: usize) -> (r: (Vec<Stmt>, usize))
    requires
        start <= instructions@.len(),
        depth <= 64,
    ensures
        (stmt_models(r.0@), r.1 as int) == block(opcodes(instructions@), start as int, depth as nat),
        start <= r.1 <= instructions@.len(),
    decreases instructions@.len() - start,
{
    let ghost ops = opcodes(instructions@);
    let ghost want = block(ops, start as int, depth as nat);
    let mut stmts: Vec<Stmt> = Vec::new();
    let mut at: usize = start;
    proof {
        assert(stmt_models(stmts@) =~= Seq::empty());
        assert(Seq::empty() + want.0 =~= want.0);
    }
    while at < instructions.len() && !matches!(
        instructions[at].opcode,
        Opcode::Else | Opcode::EndIf | Opcode::EndLoop
    )
        invariant
            start <= at <= instructions@.len(),
            depth <= 64,
            ops == opcodes(instructions@),
            want.0 == stmt_models(stmts@) + block(ops, at as int, depth as nat).0,
            want.1 == block(ops, at as int, depth as nat).1,
        decreases instructions@.len() - at,
    {
        let opcode = instructions[at].opcode;
        let ghost before = stmt_models(stmts@);
        let ghost here = block(ops, at as int, depth as nat);
        proof {
            lemma_block_ends(ops, at + 1, (depth + 1) as nat);
        }
        if opcode == Opcode::If && depth < MAX_DEPTH {
            let (yes, behind) = block_at(instructions, at + 1, depth + 1);
            let mut end: usize = behind;
            let mut els: Vec<Stmt> = Vec::new();
            proof {
                assert(stmt_models(els@) =~= Seq::empty());
            }
            if opens_with(instructions, behind, Opcode::Else) {
                let (other, last) = block_at(instructions, behind + 1, depth + 1);
                els = other;
                end = last;
            }
            if opens_with(instructions, end, Opcode::EndIf) {
                end = end + 1;
            }
            let one = Stmt::If { at, yes, els };
            proof {
                lemma_block_model(one);
            }
            let ghost m = one@;
            stmts.push(one);
            proof {
                assert(stmt_models(stmts@) =~= before + seq![m]);
                assert(here.0 == seq![m] + block(ops, end as int, depth as nat).0);
                assert(before + seq![m] + block(ops, end as int, depth as nat).0 =~= before + here.0);
            }
            at = end;
        } else if opcode == Opcode::Loop && depth < MAX_DEPTH {
            let (body, behind) = block_at(instructions, at + 1, depth + 1);
            let mut end: usize = behind;
            if opens_with(instructions, end, Opcode::EndLoop) {
                end = end + 1;
            }
            let one = Stmt::Loop(body);
            proof {
                lemma_block_model(one);
            }
            let ghost m = one@;
            stmts.push(one);
            proof {
                assert(stmt_models(stmts@) =~= before + seq![m]);
                assert(here.0 == seq![m] + block(ops, end as int, depth as nat).0);
                assert(before + seq![m] + block(ops, end as int, depth as nat).0 =~= before + here.0);
            }
            at = end;
        } else {
            stmts.push(Stmt::Op(at));
            proof {
                let m = StmtModel::Op(at as int);
                assert(stmt_models(stmts@) =~= before + seq![m]);
                assert(here.0 == seq![m] + block(ops, at + 1, depth as nat).0);
                assert(before + seq![m] + block(ops, at + 1, depth as nat).0 =~= before + here.0);
            }
            at = at + 1;
        }
    }
    proof {
        assert(block(ops, at as int, depth as nat).0 =~= Seq::empty());
        assert(stmt_models(stmts@) =~= want.0);
    }
    (stmts, at)
}

/// The instruction stream as nested blocks.
pub fn structure(instructions: &Vec<Instruction>) -> (r: Vec<Stmt>)
    ensures
        stmt_models(r@) == structured(opcodes(instructions@), 0),
{
    let ghost ops = opcodes(instructions@);
    let ghost want = structured(ops, 0);
    let mut stmts: Vec<Stmt> = Vec::new();
    let mut at: usize = 0;
    proof {
        assert(stmt_models(stmts@) + want =~= want);
    }
    while at < instructions.len()
        invariant
            at <= instructions@.len(),
            ops == opcodes(instructions@),
            want == stmt_models(stmts@) + structured(ops, at as int),
        decreases instructions@.len() - at,
    {
        let ghost before = stmt_models(stmts@);
        let ghost here = structured(ops, at as int);
        let (mut part, end) = block_at(instructions, at, 0);
        let ghost held = stmt_models(part@);
        let ghost both = stmts@ + part@;
        proof {
            lemma_block_ends(ops, at as int, 0);
        }
        stmts.append(&mut part);
        proof {
            assert(stmts@ =~= both);
            assert(stmt_models(stmts@) =~= before + held);
        }
        at = end;
        if at < instructions.len() {
            stmts.push(Stmt::Op(at));
            proof {
                assert(stmt_models(stmts@) =~= before + held + seq![StmtModel::Op(end as int)]);
                assert(before + held + seq![StmtModel::Op(end as int)] + structured(ops, end + 1) =~= before + here);
            }
            at = at + 1;
        } else {
            proof {
                assert(structured(ops, end as int) =~= Seq::empty());
                assert(before + held + structured(ops, end as int) =~= before + here);
            }
        }
    }
    proof {
        assert(structured(ops, at as int) =~= Seq::empty());
        assert(stmt_models(stmts@) =~= want);
    }
    stmts
}

/// How deep the blocks of the first statements nest.
pub open spec fn height(list: Seq<StmtModel>, n: int) -> nat
    decreases list, n,
{
    if n <= 0 || n > list.len() {
        0
    } else {
        let before = height(list, n - 1);
        let here = own_height(list[n - 1]);
        if here > before {
            here
        } else {
            before
        }
    }
}

/// How deep the blocks of a statement nest.
pub open spec fn own_height(s: StmtModel) -> nat
    decreases s, 0int,
{
    match s {
        StmtModel::Op(_) => 0,
        StmtModel::If { yes, els, .. } => {
            let a = height(yes, yes.len() as int);
            let b = height(els, els.len() as int);
            1 + if a > b {
                a
            } else {
                b
            }
        },
        StmtModel::Loop(body) => 1 + height(body, body.len() as int),
    }
}

/// The places of the instructions in the first statements, in order.
pub open spec fn places(list: Seq<StmtModel>, n: int) -> Seq<int>
    decreases list, n,
{
    if n <= 0 || n > list.len() {
        Seq::empty()
    } else {
        places(list, n - 1) + own_places(list[n - 1])
    }
}

/// The places of the instructions in a statement, in order.
pub open spec fn own_places(s: StmtModel) -> Seq<int>
    decreases s, 0int,
{
    match s {
        StmtModel::Op(at) => seq![at],
        StmtModel::If { at, yes, els } => seq![at] + places(yes, yes.len() as int) + places(els, els.len() as int),
        StmtModel::Loop(body) => places(body, body.len() as int),
    }
}

proof fn lemma_height_joined(a: Seq<StmtModel>, b: Seq<StmtModel>, n: int)
    requires
        0 <= n <= b.len(),
    ensures
        height(a + b, a.len() + n) == if height(a, a.len() as int) > height(b, n) {
            height(a, a.len() as int)
        } else {
            height(b, n)
        },
    decreases n,
{
    if n > 0 {
        lemma_height_joined(a, b, n - 1);
        assert((a + b)[a.len() + n - 1] == b[n - 1]);
    } else {
        lemma_height_start(a, b, a.len() as int);
    }
}

proof fn lemma_height_start(a: Seq<StmtModel>, b: Seq<StmtModel>, n: int)
    requires
        0 <= n <= a.len(),
    ensures
        height(a + b, n) == height(a, n),
    decreases n,
{
    if n > 0 {
        lemma_height_start(a, b, n - 1);
        assert((a + b)[n - 1] == a[n - 1]);
    }
}

proof fn lemma_places_joined(a: Seq<StmtModel>, b: Seq<StmtModel>, n: int)
    requires
        0 <= n <= b.len(),
    ensures
        places(a + b, a.len() + n) == places(a, a.len() as int) + places(b, n),
    decreases n,
{
    if n > 0 {
        lemma_places_joined(a, b, n - 1);
        assert((a + b)[a.len() + n - 1] == b[n - 1]);
        assert(places(a, a.len() as int) + places(b, n - 1) + own_places(b[n - 1]) =~= places(a, a.len() as int)
            + places(b, n));
    } else {
        lemma_places_start(a, b, a.len() as int);
        assert(places(a, a.len() as int) + places(b, 0) =~= places(a, a.len() as int));
    }
}

proof fn lemma_places_start(a: Seq<StmtModel>, b: Seq<StmtModel>, n: int)
    requires
        0 <= n <= a.len(),
    ensures
        places(a + b, n) == places(a, n),
    decreases n,
{
    if n > 0 {
        lemma_places_start(a, b, n - 1);
        assert((a + b)[n - 1] == a[n - 1]);
    }
}

/// Where the first statements of a list end, the first of which starts at a place.
pub open spec fn list_end(ops: Seq<Opcode>, list: Seq<StmtModel>, n: int, from: int) -> int
    decreases list, n,
{
    if n <= 0 || n > list.len() {
        from
    } else {
        own_end(ops, list[n - 1], list_end(ops, list, n - 1, from))
    }
}

/// Where a statement ends that starts at a place: a block ends behind the marker that closes it, where there is one.
pub open spec fn own_end(ops: Seq<Opcode>, s: StmtModel, from: int) -> int
    decreases s, 0int,
{
    match s {
        StmtModel::Op(_) => from + 1,
        StmtModel::If { yes, els, .. } => {
            let behind = list_end(ops, yes, yes.len() as int, from + 1);
            let end = if stands(ops, behind, Opcode::Else) {
                list_end(ops, els, els.len() as int, behind + 1)
            } else {
                behind
            };
            past(ops, end, Opcode::EndIf)
        },
        StmtModel::Loop(body) => past(ops, list_end(ops, body, body.len() as int, from + 1), Opcode::EndLoop),
    }
}

/// The place of a marker, where it stands there.
pub open spec fn marker(ops: Seq<Opcode>, at: int, opcode: Opcode) -> Seq<int> {
    if stands(ops, at, opcode) {
        seq![at]
    } else {
        Seq::empty()
    }
}

/// The places that the blocks of the first statements of a list stand for, the first of which starts at a place.
pub open spec fn list_marks(ops: Seq<Opcode>, list: Seq<StmtModel>, n: int, from: int) -> Seq<int>
    decreases list, n,
{
    if n <= 0 || n > list.len() {
        Seq::empty()
    } else {
        list_marks(ops, list, n - 1, from) + own_marks(ops, list[n - 1], list_end(ops, list, n - 1, from))
    }
}

/// The places that the blocks of a statement stand for: those of its loops, of the `else` that splits an `if` of its, and
/// of the markers that close its blocks.
pub open spec fn own_marks(ops: Seq<Opcode>, s: StmtModel, from: int) -> Seq<int>
    decreases s, 0int,
{
    match s {
        StmtModel::Op(_) => Seq::empty(),
        StmtModel::If { yes, els, .. } => {
            let behind = list_end(ops, yes, yes.len() as int, from + 1);
            let end = if stands(ops, behind, Opcode::Else) {
                list_end(ops, els, els.len() as int, behind + 1)
            } else {
                behind
            };
            list_marks(ops, yes, yes.len() as int, from + 1) + marker(ops, behind, Opcode::Else) + list_marks(
                ops,
                els,
                els.len() as int,
                behind + 1,
            ) + marker(ops, end, Opcode::EndIf)
        },
        StmtModel::Loop(body) => seq![from] + list_marks(ops, body, body.len() as int, from + 1) + marker(
            ops,
            list_end(ops, body, body.len() as int, from + 1),
            Opcode::EndLoop,
        ),
    }
}

/// The first statements of a list name the instructions that they stand for, one behind the other from a place on.
pub open spec fn list_told(ops: Seq<Opcode>, list: Seq<StmtModel>, n: int, from: int) -> bool
    decreases list, n,
{
    n <= 0 || n > list.len() || (list_told(ops, list, n - 1, from) && own_told(
        ops,
        list[n - 1],
        list_end(ops, list, n - 1, from),
    ))
}

/// A statement names the instructions that it stands for from a place on: a block starts with the instruction that opens
/// it, and an `if` that no `else` splits has nothing behind one.
pub open spec fn own_told(ops: Seq<Opcode>, s: StmtModel, from: int) -> bool
    decreases s, 0int,
{
    match s {
        StmtModel::Op(at) => at == from && from < ops.len(),
        StmtModel::If { at, yes, els } => {
            let behind = list_end(ops, yes, yes.len() as int, from + 1);
            &&& at == from
            &&& stands(ops, from, Opcode::If)
            &&& list_told(ops, yes, yes.len() as int, from + 1)
            &&& if stands(ops, behind, Opcode::Else) {
                list_told(ops, els, els.len() as int, behind + 1)
            } else {
                els.len() == 0
            }
        },
        StmtModel::Loop(body) => stands(ops, from, Opcode::Loop) && list_told(ops, body, body.len() as int, from + 1),
    }
}

proof fn lemma_list_start(ops: Seq<Opcode>, a: Seq<StmtModel>, b: Seq<StmtModel>, n: int, from: int)
    requires
        0 <= n <= a.len(),
    ensures
        list_end(ops, a + b, n, from) == list_end(ops, a, n, from),
        list_marks(ops, a + b, n, from) == list_marks(ops, a, n, from),
        list_told(ops, a + b, n, from) == list_told(ops, a, n, from),
    decreases n,
{
    if n > 0 {
        lemma_list_start(ops, a, b, n - 1, from);
        assert((a + b)[n - 1] == a[n - 1]);
    }
}

proof fn lemma_list_joined(ops: Seq<Opcode>, a: Seq<StmtModel>, b: Seq<StmtModel>, n: int, from: int)
    requires
        0 <= n <= b.len(),
    ensures
        ({
            let mid = list_end(ops, a, a.len() as int, from);
            &&& list_end(ops, a + b, a.len() + n, from) == list_end(ops, b, n, mid)
            &&& list_marks(ops, a + b, a.len() + n, from) == list_marks(ops, a, a.len() as int, from) + list_marks(
                ops,
                b,
                n,
                mid,
            )
            &&& list_told(ops, a + b, a.len() + n, from) == (list_told(ops, a, a.len() as int, from) && list_told(
                ops,
                b,
                n,
                mid,
            ))
        }),
    decreases n,
{
    let mid = list_end(ops, a, a.len() as int, from);
    let first = list_marks(ops, a, a.len() as int, from);
    if n > 0 {
        lemma_list_joined(ops, a, b, n - 1, from);
        assert((a + b)[a.len() + n - 1] == b[n - 1]);
        assert(list_marks(ops, a + b, a.len() + n, from) =~= first + list_marks(ops, b, n, mid));
    } else {
        lemma_list_start(ops, a, b, a.len() as int, from);
        assert(first + list_marks(ops, b, 0, mid) =~= first);
    }
}

/// A list of one statement.
proof fn lemma_list_one(ops: Seq<Opcode>, s: StmtModel, from: int)
    ensures
        list_end(ops, seq![s], 1, from) == own_end(ops, s, from),
        list_marks(ops, seq![s], 1, from) == own_marks(ops, s, from),
        list_told(ops, seq![s], 1, from) == own_told(ops, s, from),
        places(seq![s], 1) == own_places(s),
        height(seq![s], 1) == own_height(s),
{
    let list = seq![s];
    assert(list[0] == s);
    assert(list_end(ops, list, 0, from) == from);
    assert(list_marks(ops, list, 0, from) =~= Seq::empty());
    assert(list_marks(ops, list, 1, from) =~= own_marks(ops, s, from));
    assert(list_told(ops, list, 0, from));
    assert(places(list, 0) =~= Seq::empty());
    assert(places(list, 1) =~= own_places(s));
    assert(height(list, 0) == 0);
}

/// The places run upwards between two bounds, the marks lie between them, and every place between them is exactly one of
/// the two.
pub open spec fn accounted(places: Seq<int>, marks: Seq<int>, from: int, to: int) -> bool {
    &&& forall|i: int| 0 <= i < places.len() ==> from <= #[trigger] places[i] < to
    &&& forall|i: int| 0 <= i < marks.len() ==> from <= #[trigger] marks[i] < to
    &&& forall|i: int, j: int| 0 <= i < j < places.len() ==> #[trigger] places[i] < #[trigger] places[j]
    &&& forall|k: int| from <= k < to ==> (#[trigger] places.contains(k) <==> !marks.contains(k))
}

proof fn lemma_contains_joined(a: Seq<int>, b: Seq<int>, k: int)
    ensures
        (a + b).contains(k) <==> a.contains(k) || b.contains(k),
{
    let c = a + b;
    if a.contains(k) {
        let i = choose|i: int| 0 <= i < a.len() && a[i] == k;
        assert(c[i] == k);
    }
    if b.contains(k) {
        let i = choose|i: int| 0 <= i < b.len() && b[i] == k;
        assert(c[a.len() + i] == k);
    }
    if c.contains(k) {
        let i = choose|i: int| 0 <= i < c.len() && c[i] == k;
        if i < a.len() {
            assert(a[i] == k);
        } else {
            assert(b[i - a.len()] == k);
        }
    }
}

proof fn lemma_accounted_joined(
    a: Seq<int>,
    a_marks: Seq<int>,
    b: Seq<int>,
    b_marks: Seq<int>,
    from: int,
    mid: int,
    to: int,
)
    requires
        accounted(a, a_marks, from, mid),
        accounted(b, b_marks, mid, to),
        from <= mid <= to,
    ensures
        accounted(a + b, a_marks + b_marks, from, to),
{
    let c = a + b;
    let c_marks = a_marks + b_marks;
    assert forall|i: int, j: int| 0 <= i < j < c.len() implies #[trigger] c[i] < #[trigger] c[j] by {
        if i < a.len() && j >= a.len() {
            assert(a[i] < mid);
            assert(b[j - a.len()] >= mid);
        } else if j < a.len() {
            assert(a[i] < a[j]);
        } else {
            assert(b[i - a.len()] < b[j - a.len()]);
        }
    }
    assert forall|i: int| 0 <= i < c.len() implies from <= #[trigger] c[i] < to by {
        if i < a.len() {
            assert(a[i] < mid);
        } else {
            assert(b[i - a.len()] >= mid);
        }
    }
    assert forall|i: int| 0 <= i < c_marks.len() implies from <= #[trigger] c_marks[i] < to by {
        if i < a_marks.len() {
            assert(a_marks[i] < mid);
        } else {
            assert(b_marks[i - a_marks.len()] >= mid);
        }
    }
    assert forall|k: int| from <= k < to implies (#[trigger] c.contains(k) <==> !c_marks.contains(k)) by {
        lemma_contains_joined(a, b, k);
        lemma_contains_joined(a_marks, b_marks, k);
        if k < mid {
            assert(a.contains(k) <==> !a_marks.contains(k));
            assert(!b.contains(k) && !b_marks.contains(k));
        } else {
            assert(b.contains(k) <==> !b_marks.contains(k));
            assert(!a.contains(k) && !a_marks.contains(k));
        }
    }
}

/// One marker that a block stands for.
proof fn lemma_accounted_marker(at: int)
    ensures
        accounted(Seq::empty(), seq![at], at, at + 1),
{
    assert(seq![at][0] == at);
    assert(seq![at].contains(at));
}

proof fn lemma_accounted_one(at: int)
    ensures
        accounted(seq![at], Seq::empty(), at, at + 1),
{
    assert(seq![at][0] == at);
    assert(seq![at].contains(at));
}

proof fn lemma_accounted_none(at: int)
    ensures
        accounted(Seq::empty(), Seq::empty(), at, at),
{
}

/// A marker that may stand at a place.
proof fn lemma_accounted_past(a: Seq<int>, marks: Seq<int>, from: int, ops: Seq<Opcode>, at: int, opcode: Opcode)
    requires
        accounted(a, marks, from, at),
        from <= at,
    ensures
        accounted(a, marks + marker(ops, at, opcode), from, past(ops, at, opcode)),
{
    if stands(ops, at, opcode) {
        lemma_accounted_marker(at);
        lemma_accounted_joined(a, marks, Seq::empty(), seq![at], from, at, at + 1);
        assert(a + Seq::<int>::empty() =~= a);
    } else {
        assert(marks + Seq::<int>::empty() =~= marks);
    }
}

/// What the statements of a block stand for.
spec fn block_accounted(ops: Seq<Opcode>, at: int, depth: nat) -> bool {
    let (stmts, end) = block(ops, at, depth);
    let n = stmts.len() as int;
    &&& list_told(ops, stmts, n, at)
    &&& list_end(ops, stmts, n, at) == end
    &&& accounted(places(stmts, n), list_marks(ops, stmts, n, at), at, end)
    &&& height(stmts, n) + depth <= 64
}

/// A statement and what follows it.
proof fn lemma_followed(ops: Seq<Opcode>, s: StmtModel, rest: Seq<StmtModel>, at: int, next: int, end: int)
    requires
        at <= next <= end,
        own_told(ops, s, at),
        own_end(ops, s, at) == next,
        accounted(own_places(s), own_marks(ops, s, at), at, next),
        list_told(ops, rest, rest.len() as int, next),
        list_end(ops, rest, rest.len() as int, next) == end,
        accounted(places(rest, rest.len() as int), list_marks(ops, rest, rest.len() as int, next), next, end),
    ensures
        ({
            let all = seq![s] + rest;
            let n = all.len() as int;
            &&& list_told(ops, all, n, at)
            &&& list_end(ops, all, n, at) == end
            &&& accounted(places(all, n), list_marks(ops, all, n, at), at, end)
            &&& height(all, n) == if own_height(s) > height(rest, rest.len() as int) {
                own_height(s)
            } else {
                height(rest, rest.len() as int)
            }
        }),
{
    let head = seq![s];
    let m = rest.len() as int;
    lemma_list_one(ops, s, at);
    lemma_list_joined(ops, head, rest, m, at);
    lemma_places_joined(head, rest, m);
    lemma_height_joined(head, rest, m);
    lemma_accounted_joined(
        own_places(s),
        own_marks(ops, s, at),
        places(rest, m),
        list_marks(ops, rest, m, next),
        at,
        next,
        end,
    );
}

/// The statements of a block account for what it runs over, and nest no deeper than is left.
proof fn lemma_block_accounts(ops: Seq<Opcode>, at: int, depth: nat)
    requires
        0 <= at <= ops.len(),
        depth <= 64,
    ensures
        block_accounted(ops, at, depth),
    decreases ops.len() - at,
{
    let (stmts, end) = block(ops, at, depth);
    lemma_block_ends(ops, at, depth);
    if at >= ops.len() || closes(ops[at]) {
        lemma_accounted_none(at);
        assert(list_marks(ops, stmts, 0, at) =~= Seq::empty());
        assert(places(stmts, 0) =~= Seq::empty());
        assert(height(stmts, 0) == 0);
    } else if ops[at] is If && depth < 64 {
        lemma_block_ends(ops, at + 1, depth + 1);
        lemma_block_accounts(ops, at + 1, depth + 1);
        let (yes, behind) = block(ops, at + 1, depth + 1);
        let from = past(ops, behind, Opcode::Else);
        let split = stands(ops, behind, Opcode::Else);
        let els = if split {
            block(ops, from, depth + 1).0
        } else {
            Seq::empty()
        };
        let last = if split {
            block(ops, from, depth + 1).1
        } else {
            from
        };
        let py = places(yes, yes.len() as int);
        let my = list_marks(ops, yes, yes.len() as int, at + 1);
        let pe = places(els, els.len() as int);
        let me = list_marks(ops, els, els.len() as int, behind + 1);
        lemma_accounted_one(at);
        lemma_accounted_joined(seq![at], Seq::empty(), py, my, at, at + 1, behind);
        assert(Seq::<int>::empty() + my =~= my);
        lemma_accounted_past(seq![at] + py, my, at, ops, behind, Opcode::Else);
        let mb = my + marker(ops, behind, Opcode::Else);
        if split {
            lemma_block_ends(ops, from, depth + 1);
            lemma_block_accounts(ops, from, depth + 1);
        } else {
            lemma_accounted_none(from);
            assert(pe =~= Seq::empty());
            assert(me =~= Seq::empty());
        }
        lemma_accounted_joined(seq![at] + py, mb, pe, me, at, from, last);
        lemma_accounted_past(seq![at] + py + pe, mb + me, at, ops, last, Opcode::EndIf);
        let next = past(ops, last, Opcode::EndIf);
        lemma_block_accounts(ops, next, depth);
        lemma_block_ends(ops, next, depth);
        let s = StmtModel::If { at, yes, els };
        let rest = block(ops, next, depth).0;
        assert(own_places(s) == seq![at] + py + pe);
        assert(own_marks(ops, s, at) == mb + me + marker(ops, last, Opcode::EndIf));
        assert(own_told(ops, s, at));
        assert(own_end(ops, s, at) == next);
        lemma_followed(ops, s, rest, at, next, end);
        assert(stmts == seq![s] + rest);
        assert(height(els, els.len() as int) + depth + 1 <= 64);
    } else if ops[at] is Loop && depth < 64 {
        lemma_block_ends(ops, at + 1, depth + 1);
        lemma_block_accounts(ops, at + 1, depth + 1);
        let (body, behind) = block(ops, at + 1, depth + 1);
        let pb = places(body, body.len() as int);
        let mb = list_marks(ops, body, body.len() as int, at + 1);
        lemma_accounted_marker(at);
        lemma_accounted_joined(Seq::empty(), seq![at], pb, mb, at, at + 1, behind);
        assert(Seq::<int>::empty() + pb =~= pb);
        lemma_accounted_past(pb, seq![at] + mb, at, ops, behind, Opcode::EndLoop);
        let next = past(ops, behind, Opcode::EndLoop);
        lemma_block_accounts(ops, next, depth);
        lemma_block_ends(ops, next, depth);
        let s = StmtModel::Loop(body);
        let rest = block(ops, next, depth).0;
        assert(own_places(s) == pb);
        assert(own_marks(ops, s, at) == seq![at] + mb + marker(ops, behind, Opcode::EndLoop));
        assert(own_told(ops, s, at));
        assert(own_end(ops, s, at) == next);
        lemma_followed(ops, s, rest, at, next, end);
        assert(stmts == seq![s] + rest);
    } else {
        lemma_block_accounts(ops, at + 1, depth);
        lemma_block_ends(ops, at + 1, depth);
        let s = StmtModel::Op(at);
        let rest = block(ops, at + 1, depth).0;
        lemma_accounted_one(at);
        assert(own_places(s) == seq![at]);
        assert(own_marks(ops, s, at) == Seq::<int>::empty());
        lemma_followed(ops, s, rest, at, at + 1, end);
        assert(stmts == seq![s] + rest);
    }
}

/// What the statements of a stream stand for from a place on.
spec fn stream_accounted(ops: Seq<Opcode>, at: int) -> bool {
    let tree = structured(ops, at);
    let n = tree.len() as int;
    &&& list_told(ops, tree, n, at)
    &&& list_end(ops, tree, n, at) == ops.len()
    &&& accounted(places(tree, n), list_marks(ops, tree, n, at), at, ops.len() as int)
    &&& height(tree, n) <= 64
}

proof fn lemma_structured_accounts(ops: Seq<Opcode>, at: int)
    requires
        0 <= at <= ops.len(),
    ensures
        stream_accounted(ops, at),
    decreases ops.len() - at,
{
    if at >= ops.len() {
        let tree = structured(ops, at);
        lemma_accounted_none(at);
        assert(list_marks(ops, tree, 0, at) =~= Seq::empty());
        assert(places(tree, 0) =~= Seq::empty());
        assert(height(tree, 0) == 0);
    } else {
        let (stmts, end) = block(ops, at, 0);
        let n = stmts.len() as int;
        lemma_block_ends(ops, at, 0);
        lemma_block_accounts(ops, at, 0);
        if end < ops.len() {
            let s = StmtModel::Op(end);
            let rest = structured(ops, end + 1);
            let tail = seq![s] + rest;
            let m = tail.len() as int;
            lemma_structured_accounts(ops, end + 1);
            lemma_accounted_one(end);
            assert(own_places(s) == seq![end]);
            assert(own_marks(ops, s, end) == Seq::<int>::empty());
            lemma_followed(ops, s, rest, end, end + 1, ops.len() as int);
            lemma_list_joined(ops, stmts, tail, m, at);
            lemma_places_joined(stmts, tail, m);
            lemma_height_joined(stmts, tail, m);
            lemma_accounted_joined(
                places(stmts, n),
                list_marks(ops, stmts, n, at),
                places(tail, m),
                list_marks(ops, tail, m, end),
                at,
                end,
                ops.len() as int,
            );
            assert(structured(ops, at) =~= stmts + tail);
        }
    }
}

/// Every instruction lands in the tree exactly once, in the order of the stream. What the tree does not name is what
/// opens a loop of it, splits an `if` of it or closes a block of it; so a marker that nothing opened stays. The tree
/// nests no deeper than the cap.
pub proof fn law_every_instruction_lands_once(ops: Seq<Opcode>)
    ensures
        ({
            let tree = structured(ops, 0);
            let n = tree.len() as int;
            &&& list_told(ops, tree, n, 0)
            &&& list_end(ops, tree, n, 0) == ops.len()
            &&& accounted(places(tree, n), list_marks(ops, tree, n, 0), 0, ops.len() as int)
            &&& height(tree, n) <= 64
        }),
{
    lemma_structured_accounts(ops, 0);
}

} // verus!
