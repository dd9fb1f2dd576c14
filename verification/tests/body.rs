//! Values, where registers start over, and the walk over a shader.
use d3dasm::hlsl::decompile;
use d3dasm::hlsl::expr::{Domain, Expr};
use d3dasm::hlsl::machine::{destination_lanes, written};
use d3dasm::hlsl::names::Names;
use d3dasm::hlsl::value::{splits, survives, Def, Touch};
use d3dasm::shex::ir::{
    ComponentSelect, Instruction, InstructionKind, Operand, OperandIndex, Program, RegisterType, Words,
};
use d3dasm::shex::opcodes::Opcode;

fn dest(reg_type: RegisterType, components: ComponentSelect) -> Operand {
    Operand {
        reg_type,
        components,
        negate: false,
        abs: false,
        indices: Vec::new(),
        immediate_values: Words::new(),
    }
}

// `imul null, r1.xy, r1.xyxx, l(12)` reads two lanes, not one. Taking the first destination
// would narrow the sources to x and broadcast it over both, which is valid HLSL and the wrong
// shader.
#[test]
fn a_discarded_destination_does_not_decide_the_lanes() {
    let null = dest(RegisterType::Null, ComponentSelect::ZeroComponent);
    let pair = dest(RegisterType::Temp, ComponentSelect::Mask(3));
    assert_eq!(written(&null), vec![0], "a null still names a lane");
    assert_eq!(destination_lanes(&[null.clone(), pair.clone()]), vec![0, 1]);
    assert_eq!(destination_lanes(&[pair, null.clone()]), vec![0, 1]);
    assert!(destination_lanes(&[null]).is_empty());
}

/// A register two branches both write is one a reader outside them takes from whichever ran, so
/// neither write may disappear into its own reader. The walk is linear and sees the second write
/// shadowing the first, which on the path through the first branch it does not.
///
///     if (a) { r0.x = v0.x; o0.x = r0.x; }
///     if (b) { r0.x = v1.x; }
///     o1.x = r0.x;
#[test]
fn a_register_a_second_branch_writes_keeps_both_writes() {
    let at = |reg_type, register: u32, mask| Operand {
        reg_type,
        components: mask,
        negate: false,
        abs: false,
        indices: vec![OperandIndex::Imm32(register)],
        immediate_values: Words::new(),
    };
    let temp = |mask| at(RegisterType::Temp, 0, mask);
    let step = |opcode, operands: Vec<Operand>| Instruction {
        opcode,
        saturate: false,
        test_nonzero: true,
        precise_mask: 0,
        resinfo_return_type: None,
        sync_flags: 0,
        tex_offsets: None,
        resource_dim: None,
        resource_return_type: None,
        kind: InstructionKind::Generic {
            operands,
        },
    };
    let one = || ComponentSelect::Mask(1);
    let first = || ComponentSelect::Swizzle([0; 4]);
    let branch = |input: u32, out: Option<u32>| {
        let mut held = vec![
            step(Opcode::If, vec![at(RegisterType::Input, 9, first())]),
            step(
                Opcode::Mov,
                vec![temp(one()), at(RegisterType::Input, input, first())],
            ),
        ];
        held.extend(out.map(|slot| {
            step(
                Opcode::Mov,
                vec![at(RegisterType::Output, slot, one()), temp(first())],
            )
        }));
        held.push(step(Opcode::EndIf, Vec::new()));
        held
    };
    let program = Program {
        shader_type: "ps",
        major_version: 5,
        minor_version: 0,
        fourcc: *b"SHEX",
        warnings: Vec::new(),
        instructions: [
            branch(0, Some(0)),
            branch(1, None),
            vec![step(
                Opcode::Mov,
                vec![at(RegisterType::Output, 1, one()), temp(first())],
            )],
        ]
        .concat(),
    };
    let read = decompile(&program, &Names::default());
    let body: Vec<&String> = read
        .lines
        .iter()
        .filter(|line| line.contains("r0"))
        .collect();
    assert!(
        body.iter().filter(|line| line.contains("r0.x =")).count() == 2,
        "both branches have to write the register: {body:?}"
    );
}

fn def(register: u32, lanes: &[u8], block: usize) -> Def {
    Def {
        base: String::new(),
        key: (RegisterType::Temp.to_u32(), register),
        lanes: lanes.to_vec(),
        expr: Expr::Literal {
            bits: vec![0],
            domain: Domain::Float,
        },
        domain: Domain::Float,
        reads: Vec::new(),
        block,
        fixed: false,
        local: false,
        looped: false,
    }
}

fn touch(register: u32, lanes: &[u8], at: usize) -> Vec<Touch> {
    lanes
        .iter()
        .map(|lane| ((RegisterType::Temp.to_u32(), register), *lane, at))
        .collect()
}

fn decided(defs: &[Def], touches: &[Touch]) -> Vec<bool> {
    let none = vec![false; defs.len()];
    splits(defs, touches, &none, &none)
}

/// The second value in a register is a different value, and reads as one.
#[test]
fn a_register_written_over_starts_again() {
    let defs = [def(0, &[0, 1, 2, 3], 0), def(0, &[0, 1, 2, 3], 0)];
    let touches = [touch(0, &[0], 1), touch(0, &[0], 2)].concat();
    assert_eq!(decided(&defs, &touches), [false, true]);
}

/// A component the run leaves alone still holds what was put there, and only the register's own
/// name reaches it.
#[test]
fn what_the_run_does_not_write_keeps_the_name() {
    let defs = [def(0, &[0, 1, 2, 3], 0), def(0, &[0, 1], 0)];
    let touches = [touch(0, &[0], 1), touch(0, &[0, 2], 2)].concat();
    assert_eq!(decided(&defs, &touches), [false, false]);
}

/// Two writes finish the register between them, which is a fresh start at the first of them.
#[test]
fn a_run_of_writes_covers_between_them() {
    let defs = [
        def(0, &[0, 1, 2, 3], 0),
        def(0, &[0, 1], 0),
        def(0, &[2, 3], 0),
    ];
    let touches = [touch(0, &[0], 1), touch(0, &[0, 2], 3)].concat();
    assert_eq!(decided(&defs, &touches), [false, true, false]);
}

/// A read partway through the run is a read of the value the run is replacing.
#[test]
fn a_read_inside_the_run_stops_it() {
    let defs = [
        def(0, &[0, 1, 2, 3], 0),
        def(0, &[0, 1], 0),
        def(0, &[2, 3], 0),
    ];
    let touches = [touch(0, &[0], 1), touch(0, &[2], 2), touch(0, &[0, 2], 3)].concat();
    assert_eq!(decided(&defs, &touches), [false, false, false]);
}

/// A write under a branch does not happen on the way past it, so the value before it is still
/// what a later read can find, and both of them answer to the register.
#[test]
fn a_write_inside_a_branch_is_not_a_fresh_start() {
    let defs = [def(0, &[0, 1, 2, 3], 0), def(0, &[0, 1, 2, 3], 1)];
    let touches = [touch(0, &[0], 1), touch(0, &[0], 2)].concat();
    assert_eq!(decided(&defs, &touches), [false, false]);
}

/// The value an instruction reads on its way to writing the register is the one being replaced,
/// which is read before the new name takes over.
#[test]
fn reading_the_register_it_writes_does_not_stop_it() {
    let defs = [def(0, &[0, 1, 2, 3], 0), def(0, &[0, 1, 2, 3], 0)];
    let touches = [touch(0, &[0], 1), touch(0, &[0], 1), touch(0, &[0], 2)].concat();
    assert_eq!(decided(&defs, &touches), [false, true]);
}

/// A value written down under its own name never reached the register, so there is nothing
/// there to start over from.
#[test]
fn a_value_with_a_name_of_its_own_is_not_a_fresh_start() {
    let defs = [def(0, &[0, 1, 2, 3], 0), def(0, &[0, 1, 2, 3], 0)];
    let touches = [touch(0, &[0], 1), touch(0, &[0], 2)].concat();
    let localised = [false, true];
    assert_eq!(
        splits(&defs, &touches, &[false, false], &localised),
        [false, false]
    );
}

/// A value written out again at each of its readers has to last until the last of them. These are
/// the boundaries of that window, which the corpus does not happen to exercise.
#[test]
fn a_value_lasts_until_its_last_reader() {
    let slot = |register: u32, lane: u8| (RegisterType::Temp.to_u32(), register, lane);
    let mut held = def(9, &[0], 0);
    held.reads = vec![slot(1, 0)];
    // Nothing in between leaves it as it was.
    let clear = [held, def(2, &[0], 0), def(3, &[0], 0)];
    assert!(survives(&clear, &clear[0], 0, 2));
    // A write to what it reads, in between, ends it.
    let mut held = def(9, &[0], 0);
    held.reads = vec![slot(1, 0)];
    let over = [held, def(1, &[0], 0), def(3, &[0], 0)];
    assert!(!survives(&over, &over[0], 0, 2));
    // The reader's own write lands after it has read, so the reader itself does not end it.
    assert!(survives(&over, &over[0], 0, 1));
    // Neither does its own write, which is where it came from.
    let mut held = def(1, &[0], 0);
    held.reads = vec![slot(1, 0)];
    let itself = [held, def(3, &[0], 0)];
    assert!(survives(&itself, &itself[0], 0, 1));
    // Nothing read it at all, which the caller rules out before asking.
    assert!(survives(&over, &over[0], 0, 0));
}

/// Which element of an array a read took is not known, so a write anywhere in one ends every
/// value that read from it.
#[test]
fn a_write_to_an_array_ends_everything_that_read_one() {
    let arrays = RegisterType::IndexableTemp.to_u32();
    let mut held = def(9, &[0], 0);
    held.reads = vec![(arrays, 0, 0)];
    let mut writer = def(0, &[0], 0);
    writer.key = (arrays, 7);
    let over = [held, writer, def(3, &[0], 0)];
    assert!(!survives(&over, &over[0], 0, 2));
}
