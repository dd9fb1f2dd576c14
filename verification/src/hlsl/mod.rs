//! A decompiler: a shader read back as HLSL rather than as the instruction stream it compiles to.
use crate::shex::ir::{instruction_models, FlagNames, Instruction, InstructionKind, InstructionModel, KindModel, Program, ProgramModel};
use crate::text::{cat2, cat3, cat5, cat6, cat7, chars_of, dec, decimal, from_span, join, joined, views};
use body::{opening, push_text, Builder};
use declare::{computed, computed_in, preamble, preamble_lines};
use matrix::texts;
use names::{Names, Semantic, Slots};
use structure::{law_every_instruction_lands_once, opcodes, stmt_models, structure, structured};
use tidy::{
    kind_for, kind_models, kind_of, narrow, narrowed_by, place, placed, renumber, renumbered, uncast, uncasted, width_for,
    width_models, width_named, widths, widths_of, Kind, Width, WidthModel,
};
use vstd::prelude::*;
use walk::body_read;
use words::{find_char, lines_from, lines_in, mentions, names_from};

pub mod body;
pub mod declare;
pub mod declared;
pub mod expr;
pub mod fetch;
pub mod idiom;
pub mod lanes;
pub mod laws;
pub mod layout;
pub mod machine;
pub mod matrix;
pub mod meaning;
pub mod motion;
pub mod names;
pub mod operation;
pub mod places;
pub mod products;
pub mod recovery;
pub mod renewal;
pub mod resources;
pub mod structure;
pub mod tidy;
pub mod tiling;
pub mod transform;
pub mod value;
pub mod walk;
pub mod words;

verus! {

/// How much of the shader to put back together.
///
/// The difference is worth having beyond curiosity: a plain reading is a transliteration nothing has rearranged, so
/// comparing the two says whether the rearranging changed what the shader computes. It is also what to fall back to
/// when a folded reading is under suspicion.
#[derive(Clone, Copy, PartialEq, Eq, Structural)]
pub enum Reading {
    /// Every value moved to its reader where it can be, registers renamed where one holds a second value, and runs of
    /// lines put back together into the operations they came from.
    Folded,
    /// Folded, but recognising nothing: no operation recovered from the run of instructions that implemented it, and
    /// no transform rebuilt from a sum of rows. Values still move to their readers and registers are still named
    /// apart, so the reading is followable, but every expression is the arithmetic the machine actually does.
    Exact,
    /// One statement per instruction, every value written down under the register it went to.
    Plain,
}

/// A shader as HLSL, and where its declarations stop.
pub struct Decompiled {
    /// The source, one entry per line, with no trailing newlines.
    pub lines: Vec<String>,
    /// The first line of the entry point. Everything before it declares what the shader binds, which is most of the
    /// text and none of the shading.
    pub body: usize,
}

/// What a decompiled shader holds.
pub struct DecompiledModel {
    pub lines: Seq<Seq<char>>,
    pub body: nat,
}

impl Decompiled {
    /// What the decompiled shader holds.
    pub open spec fn view(&self) -> DecompiledModel {
        DecompiledModel { lines: texts(self.lines@), body: self.body as nat }
    }
}

/// The first flags that a declaration sets, from an instruction on.
pub open spec fn flags_in(instructions: Seq<InstructionModel>, from: int) -> Option<Seq<Seq<char>>>
    decreases instructions.len() - from,
{
    if from < 0 || from >= instructions.len() {
        None
    } else {
        match instructions[from].kind {
            KindModel::DclGlobalFlags { flags } if flags.len() > 0 => Some(flags),
            _ => flags_in(instructions, from + 1),
        }
    }
}

/// How many temporary registers the first declaration of them allocates, from an instruction on. None where there is no
/// such declaration.
pub open spec fn temps_in(instructions: Seq<InstructionModel>, from: int) -> u32
    decreases instructions.len() - from,
{
    if from < 0 || from >= instructions.len() {
        0
    } else {
        match instructions[from].kind {
            KindModel::DclTemps { count } => count,
            _ => temps_in(instructions, from + 1),
        }
    }
}

/// What a shader is, and the flags it was compiled with.
pub open spec fn heading_lines(program: ProgramModel) -> Seq<Seq<char>> {
    seq![
        "// "@ + program.shader_type + "_"@ + dec(program.major_version as nat) + "_"@ + dec(
            program.minor_version as nat,
        ),
    ] + (match flags_in(program.instructions, 0) {
        Some(flags) => seq!["// "@ + joined(flags, ", "@)],
        None => Seq::empty(),
    }) + seq![Seq::<char>::empty()]
}

/// An entry of a signature.
pub open spec fn semantic_text(entry: Semantic) -> Seq<char> {
    entry.kind@ + " "@ + entry.name@ + " : "@ + entry.name@
}

/// What a shader hands back, as a struct. Declaration order is what assigns an output its register, so the order is the
/// one the signature gives.
pub open spec fn output_lines(entries: Seq<(u32, Semantic)>) -> Seq<Seq<char>> {
    if entries.len() == 0 {
        Seq::empty()
    } else {
        seq!["struct Output"@, "{"@] + Seq::new(
            entries.len(),
            |i: int| "    "@ + semantic_text(entries[i].1) + ";"@,
        ) + seq!["};"@, Seq::<char>::empty()]
    }
}

/// The opening of the entry point.
pub open spec fn entry_lines(inputs: Seq<(u32, Semantic)>, outputs: Seq<(u32, Semantic)>) -> Seq<Seq<char>> {
    let kind = if outputs.len() == 0 {
        "void"@
    } else {
        "Output"@
    };
    (if inputs.len() == 0 {
        seq![kind + " main()"@]
    } else {
        seq![kind + " main("@] + Seq::new(
            inputs.len(),
            |i: int|
                "    "@ + semantic_text(inputs[i].1) + (if i + 1 == inputs.len() {
                    ""@
                } else {
                    ","@
                }),
        ) + seq![")"@]
    }) + seq!["{"@] + (if outputs.len() == 0 {
        Seq::empty()
    } else {
        seq!["    Output output = (Output)0;"@]
    })
}

/// A line of a list names a register.
pub open spec fn mentioned_in(lines: Seq<Seq<char>>, name: Seq<char>) -> bool {
    exists|i: int| 0 <= i < lines.len() && names_from(#[trigger] lines[i], name, 0)
}

/// The registers, among the first `n`, that a body names. The shader declares as many temporaries as the compiler
/// allocated, but most of them end up folded into what reads them and never appear.
pub open spec fn registers_in(lines: Seq<Seq<char>>, n: nat) -> Seq<Seq<char>>
    decreases n,
{
    if n == 0 {
        Seq::empty()
    } else {
        let before = registers_in(lines, (n - 1) as nat);
        let name = "r"@ + dec((n - 1) as nat);
        if mentioned_in(lines, name) {
            before.push(name)
        } else {
            before
        }
    }
}

/// What a register is declared as. Carrying bits changes what that is, never how wide it is.
pub open spec fn register_kind(table: Seq<WidthModel>, kinds: Seq<(Seq<char>, bool)>, name: Seq<char>) -> Seq<char> {
    let base = match kind_of(kinds, name, 0) {
        None => "float"@,
        Some(unsigned) => if unsigned {
            "uint"@
        } else {
            "int"@
        },
    };
    match width_named(table, name, 0) {
        Some(wide) => if wide == 1 {
            base
        } else {
            base + dec(wide)
        },
        None => base + dec(4),
    }
}

/// The types the first registers of a list are declared as, in order.
pub open spec fn kinds_in(
    table: Seq<WidthModel>,
    kinds: Seq<(Seq<char>, bool)>,
    registers: Seq<Seq<char>>,
    n: int,
) -> Seq<Seq<char>>
    decreases n,
{
    if n <= 0 {
        Seq::empty()
    } else {
        placed(kinds_in(table, kinds, registers, n - 1), register_kind(table, kinds, registers[n - 1]), 0)
    }
}

/// The first registers of a list that are declared as a type.
pub open spec fn band(
    table: Seq<WidthModel>,
    kinds: Seq<(Seq<char>, bool)>,
    registers: Seq<Seq<char>>,
    kind: Seq<char>,
    n: int,
) -> Seq<Seq<char>>
    decreases n,
{
    if n <= 0 {
        Seq::empty()
    } else {
        let before = band(table, kinds, registers, kind, n - 1);
        if register_kind(table, kinds, registers[n - 1]) == kind {
            before.push(registers[n - 1])
        } else {
            before
        }
    }
}

/// Registers to a line where they are declared together.
pub const WRAP: usize = 12;

/// Registers of a type as declarations, so many to a line, from a row on. Five hundred of them on one line is not a
/// declaration anybody reads; wrapped, it is a block that can be skipped over.
pub open spec fn wrapped(kind: Seq<char>, held: Seq<Seq<char>>, from: int) -> Seq<Seq<char>>
    decreases held.len() + WRAP - from,
{
    if from < 0 || from >= held.len() {
        Seq::empty()
    } else {
        let more = from + WRAP < held.len();
        let row = held.subrange(
            from,
            if more {
                from + WRAP
            } else {
                held.len() as int
            },
        );
        seq![
            (if from == 0 {
                "    "@ + kind + " "@
            } else {
                "        "@
            }) + joined(row, ", "@) + (if more {
                ","@
            } else {
                ";"@
            }),
        ] + wrapped(kind, held, from + WRAP)
    }
}

/// The declarations of the registers of the first types of a list. Registers that started over are declared whole.
pub open spec fn banded(
    table: Seq<WidthModel>,
    kinds: Seq<(Seq<char>, bool)>,
    registers: Seq<Seq<char>>,
    others: Seq<Seq<char>>,
    order: Seq<Seq<char>>,
    n: int,
) -> Seq<Seq<char>>
    decreases n,
{
    if n <= 0 {
        Seq::empty()
    } else {
        let own = band(table, kinds, registers, order[n - 1], registers.len() as int);
        let held = if order[n - 1] == "float4"@ {
            own + others
        } else {
            own
        };
        banded(table, kinds, registers, others, order, n - 1) + wrapped(order[n - 1], held, 0)
    }
}

/// The declarations of the temporary registers of a body, by type.
pub open spec fn temp_lines(
    lines: Seq<Seq<char>>,
    kinds: Seq<(Seq<char>, bool)>,
    others: Seq<Seq<char>>,
    temps: u32,
) -> Seq<Seq<char>> {
    let registers = registers_in(lines, temps as nat);
    let table = widths_of(lines, lines.len() as int);
    let order = placed(kinds_in(table, kinds, registers, registers.len() as int), "float4"@, 0);
    banded(table, kinds, registers, others, order, order.len() as int)
}

/// The declarations of the arrays of temporary registers of the first instructions.
pub open spec fn array_lines(instructions: Seq<InstructionModel>, n: int) -> Seq<Seq<char>>
    decreases n,
{
    if n <= 0 {
        Seq::empty()
    } else {
        array_lines(instructions, n - 1) + (match instructions[n - 1].kind {
            KindModel::DclIndexableTemp { reg, size, components } => seq![
                "    float"@ + dec(components as nat) + " x"@ + dec(reg as nat) + "["@ + dec(size as nat) + "];"@,
            ],
            _ => Seq::empty(),
        })
    }
}

/// A body with `.x` taken off the registers that hold nothing else.
pub open spec fn narrowed_lines(lines: Seq<Seq<char>>) -> Seq<Seq<char>> {
    let table = widths_of(lines, lines.len() as int);
    Seq::new(lines.len(), |i: int| narrowed_by(lines[i], table, table.len() as int))
}

/// A program as HLSL at a reading.
///
/// The register a value lands in is whichever one the compiler had free, so the numbers run sparse and high. Nothing
/// depends on them but the reading, so they are renumbered in the order they first appear. A function the body needs is
/// a text of several lines, and each of them comes out as one.
pub open spec fn decompiled(program: Program, names: Names, reading: Reading) -> DecompiledModel {
    let instructions = instruction_models(program.instructions@);
    let slots = computed_in(instructions, instructions.len() as int);
    let read = body_read(
        opening(program, names, slots, reading),
        structured(opcodes(program.instructions@), 0),
        1,
    );
    let (dense, met) = renumbered(read.out, read.out.len() as int, Seq::empty());
    let others = renumbered(read.renamed, read.renamed.len() as int, met).0;
    let carried = uncasted(dense);
    let temps = temps_in(instructions, 0);
    let before = heading_lines(program@) + preamble_lines(names, slots, read.arrays, instructions, read.helpers) + seq![
        Seq::<char>::empty(),
    ] + output_lines(names.outputs@);
    let after = entry_lines(names.inputs@, names.outputs@) + (if temps > 0 {
        temp_lines(carried.lines, carried.kinds, others, temps)
    } else {
        Seq::empty()
    }) + array_lines(instructions, instructions.len() as int) + seq![Seq::<char>::empty()] + (if temps > 0 {
        narrowed_lines(carried.lines)
    } else {
        carried.lines
    }) + seq!["}"@];
    let declared = lines_in(before, before.len() as int);
    DecompiledModel { lines: declared + lines_in(after, after.len() as int), body: declared.len() }
}

fn blank() -> (r: String)
    ensures
        r@ == Seq::<char>::empty(),
{
    let r = String::new();
    proof {
        assert(r@ =~= Seq::<char>::empty());
    }
    r
}

fn joined_flags(flags: &FlagNames) -> (r: String)
    ensures
        r@ == joined(flags@, ", "@),
{
    let list = flags.as_slice();
    let mut out: Vec<String> = Vec::new();
    let mut i: usize = 0;
    proof {
        assert(list@.map_values(|s: &'static str| s@).len() == list@.len());
        assert forall|k: int| 0 <= k < list@.len() implies flags@[k] == (#[trigger] list@[k])@ by {
            assert(list@.map_values(|s: &'static str| s@)[k] == list@[k]@);
        }
    }
    while i < list.len()
        invariant
            i <= list@.len(),
            flags@.len() == list@.len(),
            forall|k: int| 0 <= k < list@.len() ==> flags@[k] == (#[trigger] list@[k])@,
            out@.len() == i,
            forall|k: int| 0 <= k < i ==> (#[trigger] out@[k])@ == flags@[k],
        decreases list@.len() - i,
    {
        assert(flags@[i as int] == list@[i as int]@);
        out.push(list[i].to_owned());
        i = i + 1;
    }
    proof {
        assert(views(out@) =~= flags@);
    }
    join(out.as_slice(), ", ")
}

fn push_heading(program: &Program, out: &mut Vec<String>)
    ensures
        texts(final(out)@) == texts(old(out)@) + heading_lines(program@),
{
    let ghost before = texts(out@);
    let ghost all = program@.instructions;
    let major = decimal(program.major_version as u64);
    let minor = decimal(program.minor_version as u64);
    push_text(out, cat6("// ", program.shader_type, "_", major.as_str(), "_", minor.as_str()));
    let ghost lead = texts(out@);
    let mut i: usize = 0;
    let mut done = false;
    while i < program.instructions.len() && !done
        invariant
            i <= program.instructions@.len(),
            all == instruction_models(program.instructions@),
            !done ==> texts(out@) == lead && flags_in(all, 0) == flags_in(all, i as int),
            done ==> flags_in(all, 0) is Some && texts(out@) == lead.push("// "@ + joined(flags_in(all, 0)->0, ", "@)),
        decreases program.instructions@.len() - i,
    {
        assert(all[i as int] == program.instructions@[i as int]@);
        if let InstructionKind::DclGlobalFlags { flags } = &program.instructions[i].kind {
            if flags.as_slice().len() > 0 {
                let said = joined_flags(flags);
                push_text(out, cat2("// ", said.as_str()));
                done = true;
            }
        }
        i = i + 1;
    }
    push_text(out, blank());
    proof {
        assert(texts(out@) =~= before + heading_lines(program@));
    }
}

fn semantic(entry: &Semantic) -> (r: String)
    ensures
        r@ == semantic_text(*entry),
{
    cat5(entry.kind.as_str(), " ", entry.name.as_str(), " : ", entry.name.as_str())
}

fn push_outputs(entries: &Slots<Semantic>, out: &mut Vec<String>)
    ensures
        texts(final(out)@) == texts(old(out)@) + output_lines(entries@),
{
    let ghost before = texts(out@);
    if entries.is_empty() {
        proof {
            assert(texts(out@) =~= before + output_lines(entries@));
        }
        return;
    }
    push_text(out, "struct Output".to_owned());
    push_text(out, "{".to_owned());
    let ghost lead = texts(out@);
    let ghost want = Seq::new(entries@.len(), |i: int| "    "@ + semantic_text(entries@[i].1) + ";"@);
    let mut i: usize = 0;
    proof {
        assert(lead + want.take(0) =~= lead);
    }
    while i < entries.len()
        invariant
            i <= entries@.len(),
            want == Seq::new(entries@.len(), |i: int| "    "@ + semantic_text(entries@[i].1) + ";"@),
            texts(out@) == lead + want.take(i as int),
        decreases entries@.len() - i,
    {
        let said = semantic(entries.value_at(i));
        push_text(out, cat3("    ", said.as_str(), ";"));
        proof {
            assert(lead + want.take(i + 1) =~= (lead + want.take(i as int)).push(want[i as int]));
        }
        i = i + 1;
    }
    push_text(out, "};".to_owned());
    push_text(out, blank());
    proof {
        assert(want.take(i as int) =~= want);
        assert(texts(out@) =~= before + output_lines(entries@));
    }
}

fn push_entry(names: &Names, out: &mut Vec<String>)
    ensures
        texts(final(out)@) == texts(old(out)@) + entry_lines(names.inputs@, names.outputs@),
{
    let ghost before = texts(out@);
    let ghost inputs = names.inputs@;
    let kind = if names.outputs.is_empty() {
        "void"
    } else {
        "Output"
    };
    if names.inputs.is_empty() {
        push_text(out, cat2(kind, " main()"));
    } else {
        push_text(out, cat2(kind, " main("));
        let ghost lead = texts(out@);
        let ghost want = Seq::new(
            inputs.len(),
            |i: int|
                "    "@ + semantic_text(inputs[i].1) + (if i + 1 == inputs.len() {
                    ""@
                } else {
                    ","@
                }),
        );
        let count: usize = names.inputs.len();
        let mut i: usize = 0;
        proof {
            assert(lead + want.take(0) =~= lead);
        }
        while i < count
            invariant
                i <= count,
                count == inputs.len(),
                inputs == names.inputs@,
                want == Seq::new(
                    inputs.len(),
                    |i: int|
                        "    "@ + semantic_text(inputs[i].1) + (if i + 1 == inputs.len() {
                            ""@
                        } else {
                            ","@
                        }),
                ),
                texts(out@) == lead + want.take(i as int),
            decreases count - i,
        {
            let said = semantic(names.inputs.value_at(i));
            let comma = if i + 1 == count {
                ""
            } else {
                ","
            };
            push_text(out, cat3("    ", said.as_str(), comma));
            proof {
                assert(lead + want.take(i + 1) =~= (lead + want.take(i as int)).push(want[i as int]));
            }
            i = i + 1;
        }
        proof {
            assert(want.take(i as int) =~= want);
        }
        push_text(out, ")".to_owned());
    }
    push_text(out, "{".to_owned());
    if !names.outputs.is_empty() {
        push_text(out, "    Output output = (Output)0;".to_owned());
    }
    proof {
        assert(texts(out@) =~= before + entry_lines(names.inputs@, names.outputs@));
    }
}

fn is_mentioned(lines: &Vec<String>, name: &str) -> (r: bool)
    ensures
        r == mentioned_in(texts(lines@), name@),
{
    let ghost all = texts(lines@);
    let mut i: usize = 0;
    while i < lines.len()
        invariant
            i <= lines@.len(),
            all == texts(lines@),
            forall|k: int| 0 <= k < i ==> !names_from(#[trigger] all[k], name@, 0),
        decreases lines@.len() - i,
    {
        assert(all[i as int] == lines@[i as int]@);
        if mentions(lines[i].as_str(), name) {
            return true;
        }
        i = i + 1;
    }
    false
}

fn registers_named(lines: &Vec<String>, temps: u32) -> (r: Vec<String>)
    ensures
        texts(r@) == registers_in(texts(lines@), temps as nat),
{
    let ghost all = texts(lines@);
    let mut out: Vec<String> = Vec::new();
    let mut i: u32 = 0;
    proof {
        assert(texts(out@) =~= registers_in(all, 0));
    }
    while i < temps
        invariant
            i <= temps,
            all == texts(lines@),
            texts(out@) == registers_in(all, i as nat),
        decreases temps - i,
    {
        let d = decimal(i as u64);
        let name = cat2("r", d.as_str());
        if is_mentioned(lines, name.as_str()) {
            push_text(&mut out, name);
        }
        i = i + 1;
    }
    out
}

fn kind_declared(table: &Vec<Width>, kinds: &Vec<Kind>, name: &str) -> (r: String)
    ensures
        r@ == register_kind(width_models(table@), kind_models(kinds@), name@),
{
    let base = match kind_for(kinds, name) {
        None => "float",
        Some(unsigned) => if unsigned {
            "uint"
        } else {
            "int"
        },
    };
    match width_for(table, name) {
        Some(wide) => {
            if wide == 1 {
                base.to_owned()
            } else {
                let d = decimal(wide as u64);
                cat2(base, d.as_str())
            }
        },
        None => {
            let d = decimal(4);
            cat2(base, d.as_str())
        },
    }
}

fn row_of(held: &Vec<String>, from: usize, to: usize) -> (r: String)
    requires
        from <= to <= held@.len(),
    ensures
        r@ == joined(texts(held@).subrange(from as int, to as int), ", "@),
{
    let ghost all = texts(held@);
    let mut row: Vec<String> = Vec::new();
    let mut i: usize = from;
    while i < to
        invariant
            from <= i <= to <= held@.len(),
            all == texts(held@),
            row@.len() == i - from,
            forall|k: int| 0 <= k < i - from ==> (#[trigger] row@[k])@ == all[from + k],
        decreases to - i,
    {
        assert(all[i as int] == held@[i as int]@);
        row.push(held[i].clone());
        i = i + 1;
    }
    proof {
        assert(views(row@) =~= all.subrange(from as int, to as int));
    }
    join(row.as_slice(), ", ")
}

fn push_wrapped(kind: &str, held: &Vec<String>, out: &mut Vec<String>)
    ensures
        texts(final(out)@) == texts(old(out)@) + wrapped(kind@, texts(held@), 0),
{
    let ghost before = texts(out@);
    let ghost all = texts(held@);
    let ghost want = wrapped(kind@, all, 0);
    let count: usize = held.len();
    let mut from: usize = 0;
    let mut more = count > 0;
    while more
        invariant
            all == texts(held@),
            count == held@.len(),
            from <= count,
            more ==> from < count,
            !more ==> texts(out@) == before + want,
            more ==> texts(out@) + wrapped(kind@, all, from as int) == before + want,
        decreases count - from,
    {
        let ghost now = texts(out@);
        let further = count - from > WRAP;
        let to: usize = if further {
            from + WRAP
        } else {
            count
        };
        let row = row_of(held, from, to);
        let closing = if further {
            ","
        } else {
            ";"
        };
        if from == 0 {
            push_text(out, cat5("    ", kind, " ", row.as_str(), closing));
        } else {
            push_text(out, cat3("        ", row.as_str(), closing));
        }
        proof {
            let rest = wrapped(kind@, all, from + WRAP);
            assert(all.len() == count);
            assert(wrapped(kind@, all, from as int)[0] == texts(out@).last());
            assert(now + wrapped(kind@, all, from as int) =~= texts(out@) + rest);
            if !further {
                assert(rest =~= Seq::empty());
                assert(texts(out@) + rest =~= texts(out@));
            }
        }
        from = to;
        more = further;
    }
    proof {
        if count == 0 {
            assert(want =~= Seq::empty());
            assert(texts(out@) =~= before + want);
        }
    }
}

fn push_temps(lines: &Vec<String>, table: &Vec<Width>, kinds: &Vec<Kind>, others: &Vec<String>, temps: u32, out: &mut Vec<
    String,
>)
    requires
        width_models(table@) == widths_of(texts(lines@), lines@.len() as int),
    ensures
        texts(final(out)@) == texts(old(out)@) + temp_lines(
            texts(lines@),
            kind_models(kinds@),
            texts(others@),
            temps,
        ),
{
    let ghost before = texts(out@);
    let ghost wide = width_models(table@);
    let ghost carried = kind_models(kinds@);
    let ghost more = texts(others@);
    let registers = registers_named(lines, temps);
    let ghost held = texts(registers@);
    let mut order: Vec<String> = Vec::new();
    let mut i: usize = 0;
    proof {
        assert(texts(order@) =~= kinds_in(wide, carried, held, 0));
    }
    while i < registers.len()
        invariant
            i <= registers@.len(),
            held == texts(registers@),
            wide == width_models(table@),
            carried == kind_models(kinds@),
            texts(order@) == kinds_in(wide, carried, held, i as int),
        decreases registers@.len() - i,
    {
        assert(held[i as int] == registers@[i as int]@);
        let kind = kind_declared(table, kinds, registers[i].as_str());
        place(&mut order, kind);
        i = i + 1;
    }
    place(&mut order, "float4".to_owned());
    let ghost all = texts(order@);
    let mut n: usize = 0;
    proof {
        assert(before + banded(wide, carried, held, more, all, 0) =~= before);
    }
    while n < order.len()
        invariant
            n <= order@.len(),
            held == texts(registers@),
            more == texts(others@),
            wide == width_models(table@),
            carried == kind_models(kinds@),
            all == texts(order@),
            texts(out@) == before + banded(wide, carried, held, more, all, n as int),
        decreases order@.len() - n,
    {
        assert(all[n as int] == order@[n as int]@);
        let mut row: Vec<String> = Vec::new();
        let mut k: usize = 0;
        proof {
            assert(texts(row@) =~= band(wide, carried, held, all[n as int], 0));
        }
        while k < registers.len()
            invariant
                k <= registers@.len(),
                n < order@.len(),
                held == texts(registers@),
                wide == width_models(table@),
                carried == kind_models(kinds@),
                all == texts(order@),
                all[n as int] == order@[n as int]@,
                texts(row@) == band(wide, carried, held, all[n as int], k as int),
            decreases registers@.len() - k,
        {
            assert(held[k as int] == registers@[k as int]@);
            let kind = kind_declared(table, kinds, registers[k].as_str());
            if crate::text::same(kind.as_str(), order[n].as_str()) {
                push_text(&mut row, registers[k].clone());
            }
            k = k + 1;
        }
        if crate::text::same(order[n].as_str(), "float4") {
            let ghost own = texts(row@);
            let mut j: usize = 0;
            proof {
                assert(own + more.take(0) =~= own);
            }
            while j < others.len()
                invariant
                    j <= others@.len(),
                    more == texts(others@),
                    texts(row@) == own + more.take(j as int),
                decreases others@.len() - j,
            {
                push_text(&mut row, others[j].clone());
                proof {
                    assert(more[j as int] == others@[j as int]@);
                    assert(own + more.take(j + 1) =~= (own + more.take(j as int)).push(more[j as int]));
                }
                j = j + 1;
            }
            proof {
                assert(more.take(j as int) =~= more);
            }
        }
        push_wrapped(order[n].as_str(), &row, out);
        proof {
            assert(texts(out@) =~= before + banded(wide, carried, held, more, all, n + 1));
        }
        n = n + 1;
    }
}

fn push_arrays(instructions: &Vec<Instruction>, out: &mut Vec<String>)
    ensures
        texts(final(out)@) == texts(old(out)@) + array_lines(
            instruction_models(instructions@),
            instructions@.len() as int,
        ),
{
    let ghost before = texts(out@);
    let ghost all = instruction_models(instructions@);
    let mut i: usize = 0;
    proof {
        assert(before + array_lines(all, 0) =~= before);
    }
    while i < instructions.len()
        invariant
            i <= instructions@.len(),
            all == instruction_models(instructions@),
            texts(out@) == before + array_lines(all, i as int),
        decreases instructions@.len() - i,
    {
        assert(all[i as int] == instructions@[i as int]@);
        if let InstructionKind::DclIndexableTemp { reg, size, components } = &instructions[i].kind {
            let c = decimal(*components as u64);
            let r = decimal(*reg as u64);
            let s = decimal(*size as u64);
            push_text(out, cat7("    float", c.as_str(), " x", r.as_str(), "[", s.as_str(), "];"));
        }
        proof {
            assert(texts(out@) =~= before + array_lines(all, i + 1));
        }
        i = i + 1;
    }
}

fn temp_count(instructions: &Vec<Instruction>) -> (r: u32)
    ensures
        r == temps_in(instruction_models(instructions@), 0),
{
    let ghost all = instruction_models(instructions@);
    let mut i: usize = 0;
    while i < instructions.len()
        invariant
            i <= instructions@.len(),
            all == instruction_models(instructions@),
            temps_in(all, 0) == temps_in(all, i as int),
        decreases instructions@.len() - i,
    {
        assert(all[i as int] == instructions@[i as int]@);
        if let InstructionKind::DclTemps { count } = &instructions[i].kind {
            return *count;
        }
        i = i + 1;
    }
    0
}

fn push_lines(texts_held: &Vec<String>, out: &mut Vec<String>)
    ensures
        texts(final(out)@) == texts(old(out)@) + lines_in(texts(texts_held@), texts_held@.len() as int),
{
    let ghost before = texts(out@);
    let ghost all = texts(texts_held@);
    let mut i: usize = 0;
    proof {
        assert(before + lines_in(all, 0) =~= before);
    }
    while i < texts_held.len()
        invariant
            i <= texts_held@.len(),
            all == texts(texts_held@),
            texts(out@) == before + lines_in(all, i as int),
        decreases texts_held@.len() - i,
    {
        assert(all[i as int] == texts_held@[i as int]@);
        let chars = chars_of(texts_held[i].as_str());
        let count: usize = chars.len();
        let ghost lead = texts(out@);
        let ghost whole = lines_from(all[i as int], 0);
        let mut from: usize = 0;
        let mut more: bool = true;
        proof {
            assert(lead + whole =~= texts(out@) + lines_from(chars@, from as int));
        }
        while more
            invariant
                from <= count == chars@.len(),
                lead + whole == texts(out@) + (if more {
                    lines_from(chars@, from as int)
                } else {
                    Seq::empty()
                }),
            decreases count - from + (if more { 1int } else { 0 }),
        {
            let ghost held = texts(out@);
            match find_char(chars.as_slice(), '\n', from) {
                Some(at) => {
                    push_text(out, from_span(chars.as_slice(), from, at));
                    proof {
                        let rest = lines_from(chars@, at + 1);
                        let one = chars@.subrange(from as int, at as int);
                        assert(held + (seq![one] + rest) =~= held.push(one) + rest);
                    }
                    from = at + 1;
                },
                None => {
                    push_text(out, from_span(chars.as_slice(), from, count));
                    proof {
                        let one = chars@.subrange(from as int, count as int);
                        assert(held + seq![one] =~= held.push(one) + Seq::<Seq<char>>::empty());
                    }
                    more = false;
                },
            }
        }
        proof {
            assert(texts(out@) + Seq::<Seq<char>>::empty() =~= texts(out@));
            assert(texts(out@) =~= before + lines_in(all, i + 1));
        }
        i = i + 1;
    }
}

/// Decompile a program to HLSL, folded as far as it will go.
pub fn decompile(program: &Program, names: &Names) -> (r: Decompiled)
    ensures
        r@ == decompiled(*program, *names, Reading::Folded),
{
    read(program, names, Reading::Folded)
}

/// Decompile a program to HLSL at the given reading.
pub fn read(program: &Program, names: &Names, reading: Reading) -> (r: Decompiled)
    ensures
        r@ == decompiled(*program, *names, reading),
{
    let ghost all = instruction_models(program.instructions@);
    let tree = structure(&program.instructions);
    let ghost list = structured(opcodes(program.instructions@), 0);
    proof {
        law_every_instruction_lands_once(opcodes(program.instructions@));
        assert(stmt_models(tree@).len() == tree@.len());
        assert(all.len() == program.instructions@.len());
    }
    let slots = computed(&program.instructions);
    let mut builder = Builder::new(program, names, &slots, reading);
    builder.run(&tree, 1);
    let ghost got = body_read(opening(*program, *names, slots@, reading), list, 1);
    let mut lines = builder.out;
    let mut others = builder.renamed;
    let mut out: Vec<String> = Vec::new();
    let ghost none = texts(out@);
    push_heading(program, &mut out);
    preamble(&program.instructions, names, &slots, &builder.arrays, &builder.helpers, &mut out);
    push_text(&mut out, blank());
    push_outputs(&names.outputs, &mut out);
    let ghost before = texts(out@);
    let mut broken: Vec<String> = Vec::new();
    push_lines(&out, &mut broken);
    let body: usize = broken.len();
    let ghost first = texts(broken@);
    out.clear();
    proof {
        assert(none =~= Seq::empty());
        assert(before =~= heading_lines(program@) + preamble_lines(*names, slots@, got.arrays, all, got.helpers) + seq![
            Seq::<char>::empty(),
        ] + output_lines(names.outputs@));
        assert(first =~= lines_in(before, before.len() as int));
        assert(first.len() == body);
        assert(texts(out@) =~= Seq::empty());
    }
    push_entry(names, &mut out);
    let ghost entered = texts(out@);
    proof {
        assert(texts(lines@).len() == lines@.len());
        assert(texts(others@).len() == others@.len());
    }
    renumber(&mut lines, &mut others);
    let kinds = uncast(&mut lines);
    let ghost carried = texts(lines@);
    let temps = temp_count(&program.instructions);
    if temps > 0 {
        let table = widths(&lines);
        proof {
            assert(carried.len() == lines@.len());
        }
        push_temps(&lines, &table, &kinds, &others, temps, &mut out);
        narrow(&mut lines, &table);
        proof {
            assert(width_models(table@).len() == table@.len());
            assert(texts(lines@) =~= narrowed_lines(carried));
        }
    }
    let ghost declared = texts(out@);
    let ghost last = texts(lines@);
    push_arrays(&program.instructions, &mut out);
    push_text(&mut out, blank());
    let ghost lead = texts(out@);
    let ghost both = out@ + lines@;
    out.append(&mut lines);
    proof {
        assert(out@ =~= both);
        assert(texts(out@) =~= lead + last);
    }
    push_text(&mut out, "}".to_owned());
    push_lines(&out, &mut broken);
    proof {
        let rest = entry_lines(names.inputs@, names.outputs@) + (if temps > 0 {
            temp_lines(carried, kind_models(kinds@), texts(others@), temps)
        } else {
            Seq::empty()
        }) + array_lines(all, all.len() as int) + seq![Seq::<char>::empty()] + last + seq!["}"@];
        assert(texts(out@) =~= rest);
        assert(texts(broken@) =~= decompiled(*program, *names, reading).lines);
    }
    Decompiled { lines: broken, body }
}

} // verus!
