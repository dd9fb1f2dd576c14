//! Whole shaders read back as HLSL.
use d3dasm::hlsl::names::{Names, Semantic};
use d3dasm::hlsl::tidy::{renumber, uncast, widths};
use d3dasm::hlsl::value::{decide, Def, Usage};
use d3dasm::hlsl::expr::{Domain, Expr};
use d3dasm::hlsl::words::mentions_word;
use d3dasm::hlsl::{decompile, read, Decompiled, Reading};
use d3dasm::shex::ir::{
    ComponentSelect, CustomDataType, Instruction, InstructionKind, Operand, OperandIndex, Program, RegisterType, ReturnType,
    Words,
};
use d3dasm::shex::opcodes::Opcode;

fn operand(reg_type: RegisterType, index: u32, components: ComponentSelect) -> Operand {
    Operand {
        reg_type,
        components,
        negate: false,
        abs: false,
        indices: vec![OperandIndex::Imm32(index)],
        immediate_values: Words::new(),
    }
}

fn all(reg_type: RegisterType, index: u32) -> Operand {
    operand(reg_type, index, ComponentSelect::Swizzle([0, 1, 2, 3]))
}

fn lane(reg_type: RegisterType, index: u32, at: u8) -> Operand {
    operand(reg_type, index, ComponentSelect::Swizzle([at; 4]))
}

fn dest(reg_type: RegisterType, index: u32, mask: u8) -> Operand {
    operand(reg_type, index, ComponentSelect::Mask(mask))
}

fn constant(values: &[u32]) -> Operand {
    Operand {
        reg_type: RegisterType::Immediate32,
        components: ComponentSelect::OneComponent,
        negate: false,
        abs: false,
        indices: Vec::new(),
        immediate_values: Words::from_words(values),
    }
}

fn instruction(opcode: Opcode, kind: InstructionKind) -> Instruction {
    Instruction {
        opcode,
        saturate: false,
        test_nonzero: true,
        precise_mask: 0,
        resinfo_return_type: None,
        sync_flags: 0,
        tex_offsets: None,
        resource_dim: None,
        resource_return_type: None,
        kind,
    }
}

fn step(opcode: Opcode, operands: Vec<Operand>) -> Instruction {
    instruction(opcode, InstructionKind::Generic { operands })
}

fn temps(count: u32) -> Instruction {
    instruction(Opcode::DclTemps, InstructionKind::DclTemps { count })
}

fn program(instructions: Vec<Instruction>) -> Program {
    Program {
        shader_type: "ps",
        major_version: 5,
        minor_version: 0,
        fourcc: *b"SHEX",
        warnings: Vec::new(),
        instructions,
    }
}

fn statements(held: &Decompiled) -> Vec<String> {
    let open = held.lines[held.body..].iter().position(|line| line == "{").unwrap() + held.body;
    held.lines[open + 1..held.lines.len() - 1].to_vec()
}

fn scaled() -> Program {
    let mut buffer = all(RegisterType::ConstantBuffer, 0);
    buffer.indices.push(OperandIndex::Imm32(1));
    program(vec![
        temps(1),
        step(Opcode::Mul, vec![dest(RegisterType::Temp, 0, 0xF), all(RegisterType::Input, 0), buffer]),
        step(Opcode::Mov, vec![dest(RegisterType::Output, 0, 0xF), all(RegisterType::Temp, 0)]),
        step(Opcode::Ret, Vec::new()),
    ])
}

#[test]
fn a_value_read_once_disappears_into_its_reader() {
    let held = decompile(&scaled(), &Names::default());
    assert_eq!(
        held.lines,
        [
            "// ps_5_0",
            "",
            "",
            "void main()",
            "{",
            "",
            "    output.o0 = v0 * cb0[1];",
            "    return;",
            "}"
        ]
    );
    assert_eq!(held.body, 3);
}

#[test]
fn a_plain_reading_writes_every_value_down() {
    let held = read(&scaled(), &Names::default(), Reading::Plain);
    assert_eq!(
        statements(&held),
        ["    float4 r0;", "", "    r0 = v0 * cb0[1];", "    output.o0 = r0;", "    return;"]
    );
}

#[test]
fn a_signature_names_what_the_shader_takes_and_hands_back() {
    let mut names = Names::default();
    names.inputs.insert(0, Semantic::new("TEXCOORD", 1, 3, 0xF));
    names.outputs.insert(0, Semantic::new("SV_Target", 0, 3, 0xF));
    let held = decompile(
        &program(vec![
            step(Opcode::Mov, vec![dest(RegisterType::Output, 0, 0xF), all(RegisterType::Input, 0)]),
            step(Opcode::Ret, Vec::new()),
        ]),
        &names,
    );
    assert_eq!(
        held.lines,
        [
            "// ps_5_0",
            "",
            "",
            "struct Output",
            "{",
            "    float4 SV_Target : SV_Target;",
            "};",
            "",
            "Output main(",
            "    float4 TEXCOORD1 : TEXCOORD1",
            ")",
            "{",
            "    Output output = (Output)0;",
            "",
            "    output.SV_Target = TEXCOORD1;",
            "    return output;",
            "}"
        ]
    );
    assert_eq!(held.body, 8);
}

#[test]
fn blocks_nest_and_a_condition_that_is_always_true_is_none() {
    let held = decompile(
        &program(vec![
            step(Opcode::If, vec![lane(RegisterType::Input, 0, 0)]),
            step(Opcode::Discard, vec![constant(&[0xFFFF_FFFF])]),
            step(Opcode::EndIf, Vec::new()),
            step(Opcode::Loop, Vec::new()),
            step(Opcode::Break, Vec::new()),
            step(Opcode::EndLoop, Vec::new()),
            step(Opcode::Discard, vec![constant(&[0])]),
            step(Opcode::Emit, Vec::new()),
            step(Opcode::Ret, Vec::new()),
        ]),
        &Names::default(),
    );
    assert_eq!(
        statements(&held),
        [
            "",
            "    if (v0.x != 0.0)",
            "    {",
            "        discard;",
            "    }",
            "    while (true)",
            "    {",
            "        break;",
            "    }",
            "    // emit",
            "    return;"
        ]
    );
}

#[test]
fn a_function_the_language_lacks_is_written_out() {
    let held = decompile(
        &program(vec![
            step(
                Opcode::Ubfe,
                vec![
                    dest(RegisterType::Temp, 0, 1),
                    constant(&[8]),
                    constant(&[4]),
                    lane(RegisterType::Input, 0, 0),
                ],
            ),
            step(Opcode::Mov, vec![dest(RegisterType::Output, 0, 1), lane(RegisterType::Temp, 0, 0)]),
        ]),
        &Names::default(),
    );
    let at = held.lines.iter().position(|line| line.starts_with("uint bitfield_extract")).unwrap();
    assert_eq!(
        held.lines[at..at + 4],
        [
            "uint bitfield_extract(uint value, uint offset, uint width)",
            "{",
            "    return select(width == 0, (uint)0, (value << (32 - width - offset)) >> (32 - width));",
            "}",
        ]
    );
    assert!(held.lines.iter().all(|line| !line.contains('\n')));
    assert_eq!(
        statements(&held),
        ["", "    output.o0.x = asfloat(bitfield_extract(asuint(v0.x), 4u, 8u));"]
    );
}

#[test]
fn a_texture_read_names_its_resource_and_sampler() {
    let held = decompile(
        &program(vec![
            instruction(
                Opcode::DclResource,
                InstructionKind::DclResource {
                    dimension: "texture2d",
                    sample_count: 0,
                    return_type: [ReturnType::Float; 4],
                    operands: vec![all(RegisterType::Resource, 0)],
                },
            ),
            instruction(
                Opcode::DclSampler,
                InstructionKind::DclSampler {
                    mode: "default",
                    operands: vec![all(RegisterType::Sampler, 0)],
                },
            ),
            step(
                Opcode::Sample,
                vec![
                    dest(RegisterType::Temp, 0, 0xF),
                    operand(RegisterType::Input, 0, ComponentSelect::Swizzle([0, 1, 0, 0])),
                    all(RegisterType::Resource, 0),
                    all(RegisterType::Sampler, 0),
                ],
            ),
            step(Opcode::Mov, vec![dest(RegisterType::Output, 0, 0xF), all(RegisterType::Temp, 0)]),
        ]),
        &Names::default(),
    );
    assert_eq!(held.lines[2], "Texture2D<float4> t0 : register(t0);");
    assert_eq!(held.lines[3], "SamplerState s0 : register(s0);");
    assert_eq!(statements(&held), ["", "    output.o0 = t0.Sample(s0, v0.xy);"]);
}

fn reused() -> Program {
    let sum = |a: u32, b: u32| {
        step(
            Opcode::Add,
            vec![dest(RegisterType::Temp, 0, 0xF), all(RegisterType::Input, a), all(RegisterType::Input, b)],
        )
    };
    let out = |at: u32| step(Opcode::Mov, vec![dest(RegisterType::Output, at, 0xF), all(RegisterType::Temp, 0)]);
    program(vec![temps(1), sum(0, 1), out(0), out(1), sum(2, 3), out(2), out(3)])
}

#[test]
fn a_register_that_starts_over_takes_a_new_name() {
    assert_eq!(
        statements(&decompile(&reused(), &Names::default())),
        [
            "    float4 r0, r0_2;",
            "",
            "    r0 = v0 + v1;",
            "    output.o0 = r0;",
            "    output.o1 = r0;",
            "    r0_2 = v2 + v3;",
            "    output.o2 = r0_2;",
            "    output.o3 = r0_2;"
        ]
    );
}

#[test]
fn a_plain_reading_renames_nothing() {
    let held = read(&reused(), &Names::default(), Reading::Plain);
    assert!(!held.lines.iter().any(|line| line.contains("r0_2")));
    assert!(held.lines.contains(&"    r0 = v2 + v3;".to_owned()));
}

#[test]
fn values_named_apart_never_share_a_name() {
    let sum = |input: u32| {
        step(
            Opcode::Iadd,
            vec![dest(RegisterType::Temp, 0, 1), lane(RegisterType::Input, input, 0), constant(&[1])],
        )
    };
    let out = |at: u32, mask: u8| {
        step(Opcode::Itof, vec![dest(RegisterType::Output, at, mask), lane(RegisterType::Temp, 0, 0)])
    };
    let held = decompile(
        &program(vec![temps(1), sum(0), out(0, 1), out(1, 1), sum(1), out(2, 1), out(3, 1)]),
        &Names::default(),
    );
    assert!(held.lines.contains(&"    int r0_x = asint(v0.x) + 1;".to_owned()), "{:?}", held.lines);
    assert!(held.lines.contains(&"    int r0_x_2 = asint(v1.x) + 1;".to_owned()), "{:?}", held.lines);
}

#[test]
fn a_table_of_constants_is_declared() {
    let held = decompile(
        &program(vec![instruction(
            Opcode::CustomData,
            InstructionKind::CustomData {
                subtype: CustomDataType::from_u32(3),
                values: vec![[0x3F80_0000, 0, 0x4000_0000, 0x3DCC_CCCD]],
                raw_dword_count: 6,
                rest: Vec::new(),
            },
        )]),
        &Names::default(),
    );
    assert_eq!(
        held.lines[2..6],
        ["", "static const float4 icb[1] =", "{", "    float4(1.0, 0.0, 2.0, 0.1),"]
    );
}

#[test]
fn a_value_nothing_reads_is_written_down() {
    let def = || Def {
        base: "r0".to_owned(),
        key: (0, 0),
        lanes: vec![0],
        expr: Expr::Read { base: "v0".to_owned(), swizzle: vec![0] },
        domain: Domain::Float,
        reads: Vec::new(),
        block: 0,
        fixed: false,
        local: false,
        looped: false,
    };
    let once = Usage { reads: 1, last: 1, ..Usage::default() };
    let (folded, localised) = decide(&vec![def(), def()], &vec![once, Usage::default()]);
    assert_eq!(folded, [true, false]);
    assert_eq!(localised, [false, false]);
}

#[test]
fn renumbering_keeps_registers_apart() {
    let mut body = vec!["    r7 = r3 + r7;".to_owned(), "    uint r3_x = r12.x;".to_owned()];
    let mut others = vec!["r12_2".to_owned()];
    renumber(&mut body, &mut others);
    assert_eq!(body, ["    r0 = r1 + r0;", "    uint r1_x = r2.x;"]);
    assert_eq!(others, ["r2_2"]);
}

#[test]
fn words_of_any_script_end_a_name() {
    // A letter with an accent is a letter behind a register.
    assert!(widths(&vec!["r1\u{e9}.x".to_owned()]).is_empty());
    assert_eq!(widths(&vec!["r1.y".to_owned()])[0].wide, 2);
    // And part of a word in front of one.
    assert!(!mentions_word("\u{e9}r2", "r2"));
    assert!(mentions_word("(r2)", "r2"));
    // A wide space is white space too.
    let mut body = vec!["\u{3000}r0 = asfloat(x);".to_owned(), "    y = asuint(r0);".to_owned()];
    let kinds = uncast(&mut body);
    assert_eq!(body, ["\u{3000}r0 = x;", "    y = r0;"]);
    assert_eq!((kinds[0].name.as_str(), kinds[0].unsigned), ("r0", true));
}

/// The number of the first line of the body counts lines, so a name that holds a line break counts as two.
#[test]
fn a_name_that_breaks_a_line_still_leaves_one_line_to_an_entry() {
    let mut names = Names::default();
    names.textures.insert(0, "g_Two\nLines".to_owned());
    let held = decompile(
        &program(vec![
            instruction(
                Opcode::DclResource,
                InstructionKind::DclResource {
                    dimension: "texture2d",
                    sample_count: 0,
                    return_type: [ReturnType::Float; 4],
                    operands: vec![all(RegisterType::Resource, 0)],
                },
            ),
            step(Opcode::Mov, vec![dest(RegisterType::Output, 0, 1), lane(RegisterType::Input, 0, 0)]),
        ]),
        &names,
    );
    assert!(held.lines.iter().any(|line| line.ends_with("g_Two")));
    assert!(held.lines.iter().all(|line| !line.contains('\n')));
    assert_eq!(statements(&held), ["", "    output.o0.x = v0.x;"]);
}

fn uncasted(lines: &[&str]) -> (Vec<String>, usize) {
    let mut body: Vec<String> = lines.iter().map(|line| (*line).to_owned()).collect();
    let kinds = uncast(&mut body);
    (body, kinds.len())
}

/// A cast that is only part of what a line writes stays, and so do all the others of its register.
#[test]
fn a_cast_comes_off_only_where_it_is_the_whole_write() {
    let sum = ["    r1 = asfloat(a) + asfloat(b);", "    c = asuint(r1);"];
    assert_eq!(uncasted(&sum), (sum.map(str::to_owned).to_vec(), 0));
    let both = ["    r1 = asfloat((a) + (b));", "    c = asuint(r1);"];
    assert_eq!(uncasted(&both), (vec!["    r1 = (a) + (b);".to_owned(), "    c = r1;".to_owned()], 1));
    // One write that is no cast keeps the register as it is.
    let mixed = ["    r1 = asfloat(a);", "    r1 = asfloat(a) + asfloat(b);", "    c = asuint(r1);"];
    assert_eq!(uncasted(&mixed), (mixed.map(str::to_owned).to_vec(), 0));
}

/// A line keeps its place in the block that it stands in.
#[test]
fn a_line_without_its_cast_keeps_its_indentation() {
    let (body, count) = uncasted(&["    r1 = asfloat(a);", "        r1 = asfloat(b);", "        c = asint(r1);"]);
    assert_eq!(body, ["    r1 = a;", "        r1 = b;", "        c = r1;"]);
    assert_eq!(count, 1);
}

/// A register that a cast write reads has to be read through the other cast there too.
#[test]
fn a_write_that_reads_its_register_is_looked_into() {
    let (body, _) = uncasted(&["    r1 = asfloat(asuint(r1) + 1u);"]);
    assert_eq!(body, ["    r1 = r1 + 1u;"]);
    let plain = ["    r1 = asfloat((uint)r1);", "    c = asuint(r1);"];
    assert_eq!(uncasted(&plain), (plain.map(str::to_owned).to_vec(), 0));
}
