//! Names, blocks and declarations.
use d3dasm::hlsl::declare::buffer;
use d3dasm::hlsl::names::{Buffer, Field, Names, Slots};
use d3dasm::hlsl::structure::{structure, Stmt, MAX_DEPTH};
use d3dasm::hlsl::words::mentions;
use d3dasm::shex::ir::{Instruction, InstructionKind, Program};
use d3dasm::shex::opcodes::Opcode;

#[test]
fn a_register_is_not_named_by_one_it_prefixes() {
    assert!(mentions("    r1.x = r20.y;", "r1"));
    assert!(!mentions("    r20.x = r201.y;", "r2"));
    assert!(!mentions("    uint r18_x = 0;", "r18"));
    assert!(mentions("    r7 = float4(0.0, 0.0, 0.0, 0.0);", "r7"));
}

fn field(name: &str, register: u32, registers: u32, mask: u8) -> Field {
    Field {
        name: name.to_owned(),
        // Sized from the mask the way both of the real builders size it, since a type wider than
        // the components it claims is what the tiling exists to keep out.
        kind: match (registers > 1, mask.count_ones()) {
            (true, _) | (_, 4) => "float4".to_owned(),
            (_, 1) => "float".to_owned(),
            (_, lanes) => format!("float{lanes}"),
        },
        register,
        registers,
        mask,
    }
}

fn named(fields: Vec<Field>) -> Names {
    let mut names = Names::default();
    names
        .constants
        .insert(0, Buffer::new("g_Buffer".to_owned(), fields));
    names
}

/// The declaration falls back to an array of registers when nothing names the inside, so the
/// reading has to index rather than reach in, or it names a member that was never declared.
#[test]
fn a_buffer_without_fields_is_indexed() {
    assert!(named(Vec::new()).constant(0, 3, &[0]).is_none());
}

#[test]
fn a_field_wider_than_a_register_is_indexed_from_its_first() {
    let names = named(vec![field("m_View", 0, 4, 0xF)]);
    let parts = names.constant(0, 2, &[0, 1]).unwrap();
    assert_eq!(parts[0].0, "g_Buffer.m_View[2]");
    assert_eq!(parts[1], ("g_Buffer.m_View[2]".to_owned(), 1));
}

/// Four parameters can share one register, so which field answers depends on the component.
#[test]
fn packed_fields_are_told_apart_by_component() {
    let names = named(vec![
        field("m_Near", 0, 1, 0b0011),
        field("m_Far", 0, 1, 0b1100),
    ]);
    let parts = names.constant(0, 0, &[0, 3]).unwrap();
    assert_eq!(parts[0], ("g_Buffer.m_Near".to_owned(), 0));
    assert_eq!(parts[1], ("g_Buffer.m_Far".to_owned(), 1));
}

#[test]
fn a_register_no_field_covers_falls_to_its_own_name() {
    let names = named(vec![field("m_Near", 0, 1, 0xF)]);
    assert_eq!(
        names.constant(0, 5, &[2]).unwrap()[0],
        ("g_Buffer.pad5".to_owned(), 2)
    );
}

/// Packing puts a member after the one before it, so a field keeps the register the bytecode
/// reads it from only when what it is declared after fills everything ahead of it.
#[test]
fn what_the_fields_leave_between_them_is_declared_too() {
    let buffer = Buffer::new(
        "g_Buffer".to_owned(),
        vec![field("m_Near", 0, 1, 0b0001), field("m_Far", 2, 1, 0b0011)],
    );
    let declared: Vec<String> = buffer
        .declarations()
        .iter()
        .map(|line| line.trim().trim_end_matches(';').to_owned())
        .collect();
    assert_eq!(
        declared,
        [
            "float m_Near",
            "float3 pad0_1",
            "float4 pad1",
            "float2 m_Far",
            "float2 pad2_2"
        ]
    );
}

/// A field the reflection sizes by where the next one starts claims the padding after it, which
/// its own type does not fill.
#[test]
fn a_field_narrower_than_the_room_it_claims_is_padded_to_it() {
    let mut colour = field("m_Colour", 0, 1, 0xF);
    colour.kind = "float3".to_owned();
    let names = named(vec![colour]);
    assert_eq!(
        names.constant(0, 0, &[3]).unwrap()[0],
        ("g_Buffer.pad0_3".to_owned(), 0)
    );
}

/// A caller may give a sampler the same name as its texture, and two things in one scope cannot
/// share one.
#[test]
fn a_sampler_gives_way_to_the_texture_it_shares_a_name_with() {
    let mut names = Names::default();
    names.textures.insert(6, "g_SamplerNormal".to_owned());
    names.samplers.insert(2, "g_SamplerNormal".to_owned());
    assert_eq!(names.texture(6), "g_SamplerNormal");
    assert_eq!(names.sampler(2), "g_SamplerNormal_s2");
}

fn program(opcodes: &[Opcode]) -> Program {
    Program {
        shader_type: "ps",
        major_version: 5,
        minor_version: 0,
        fourcc: *b"SHEX",
        warnings: Vec::new(),
        instructions: opcodes
            .iter()
            .map(|opcode| Instruction {
                opcode: *opcode,
                saturate: false,
                test_nonzero: true,
                precise_mask: 0,
                resinfo_return_type: None,
                sync_flags: 0,
                tex_offsets: None,
                resource_dim: None,
                resource_return_type: None,
                kind: InstructionKind::Generic {
                    operands: Vec::new(),
                },
            })
            .collect(),
    }
}

/// Every instruction has to land in the tree exactly once, which is what makes the reading a
/// rearrangement of the shader rather than a summary of it.
fn count(tree: &[Stmt]) -> usize {
    tree.iter()
        .map(|stmt| match stmt {
            Stmt::Op(_) => 1,
            Stmt::If { yes, els, .. } => 1 + count(yes) + count(els),
            Stmt::Loop(inner) => 1 + count(inner),
        })
        .sum()
}

#[test]
fn nests_matched_blocks() {
    let opcodes = [
        Opcode::Mov,
        Opcode::If,
        Opcode::Mul,
        Opcode::Else,
        Opcode::Add,
        Opcode::EndIf,
        Opcode::Ret,
    ];
    let tree = structure(&program(&opcodes).instructions);
    assert_eq!(tree.len(), 3);
    let Stmt::If { yes, els, .. } = &tree[1] else {
        panic!("the if did not nest");
    };
    assert_eq!(yes.len(), 1);
    assert_eq!(els.len(), 1);
}

#[test]
fn a_block_nothing_closes_keeps_its_body() {
    let opcodes = [Opcode::If, Opcode::Mul, Opcode::Ret];
    let tree = structure(&program(&opcodes).instructions);
    assert_eq!(count(&tree), opcodes.len());
    assert!(matches!(tree.first(), Some(Stmt::If { .. })));
}

#[test]
fn a_marker_nothing_opened_is_kept() {
    let opcodes = [Opcode::Mul, Opcode::EndIf, Opcode::Ret];
    let tree = structure(&program(&opcodes).instructions);
    assert_eq!(count(&tree), 3);
}

#[test]
fn nesting_past_the_cap_stays_flat() {
    let mut opcodes = vec![Opcode::If; MAX_DEPTH + 4];
    opcodes.push(Opcode::Ret);
    let instructions = program(&opcodes).instructions;
    let tree = structure(&instructions);
    assert_eq!(count(&tree), instructions.len());
}

/// A buffer holding one member named after itself is declared straight into the `cbuffer`, the
/// way a hand-written header has it, so nothing reaches through a name spelled twice.
#[test]
fn a_buffer_that_is_one_matrix_needs_no_struct() {
    let mut only = field("g_WorldMatrix", 0, 3, 0xF);
    only.kind = "float3x4".to_owned();
    let mut names = Names::default();
    names
        .constants
        .insert(0, Buffer::new("g_WorldMatrix".to_owned(), vec![only]));
    let mut out = Vec::new();
    buffer(&names, &Vec::new(), &Vec::new(), 0, 3, &mut out);
    assert_eq!(out[0], "cbuffer g_WorldMatrix : register(b0)");
    assert_eq!(out[2], "    row_major float3x4 g_WorldMatrix;");
    // And a read of one of its rows names the matrix once.
    assert_eq!(
        names.constant(0, 1, &[0]).unwrap()[0],
        ("(g_WorldMatrix[1])".to_owned(), 0)
    );
}

/// More than one member keeps the struct, so a field cannot collide with another buffer's.
#[test]
fn a_buffer_with_more_than_one_member_keeps_its_struct() {
    let names = named(vec![field("m_Near", 0, 1, 0xF), field("m_Far", 1, 1, 0xF)]);
    let mut out = Vec::new();
    buffer(&names, &Vec::new(), &Vec::new(), 0, 2, &mut out);
    assert_eq!(out[0], "struct g_Buffer_t");
    assert_eq!(
        names.constant(0, 0, &[0]).unwrap()[0],
        ("g_Buffer.m_Near".to_owned(), 0)
    );
}

/// An array of matrices is indexed twice: a register is one row of one element, and the whole of
/// an element is the matrix a transform multiplies by.
#[test]
fn an_array_of_matrices_is_indexed_by_element_and_row() {
    let mut only = field("g_WorldViewMatrix", 0, 6, 0xF);
    only.kind = "float3x4[2]".to_owned();
    let mut names = Names::default();
    names
        .constants
        .insert(0, Buffer::new("g_WorldViewMatrix".to_owned(), vec![only]));
    let mut out = Vec::new();
    buffer(&names, &Vec::new(), &Vec::new(), 0, 6, &mut out);
    assert_eq!(out[2], "    row_major float3x4 g_WorldViewMatrix[2];");
    // Register 0 is the first row of the first, register 4 the second row of the second.
    assert_eq!(
        names.constant(0, 0, &[0]).unwrap()[0],
        ("(g_WorldViewMatrix[0][0])".to_owned(), 0)
    );
    assert_eq!(
        names.constant(0, 4, &[2]).unwrap()[0],
        ("(g_WorldViewMatrix[1][1])".to_owned(), 2)
    );
    // And the array spends a register on every row of every element, so nothing is padded past.
    assert_eq!(out.len(), 4);
}

/// An array of anything else counts elements rather than registers, so it keeps the registers it
/// really is and stays indexed by them.
#[test]
fn an_array_of_vectors_stays_indexed_by_register() {
    let mut only = field("g_Data", 0, 3, 0xF);
    only.kind = "float4[3]".to_owned();
    let names = named(vec![only]);
    assert_eq!(
        names.constant(0, 2, &[1]).unwrap()[0],
        ("g_Buffer.g_Data[2]".to_owned(), 1)
    );
}

/// A buffer whose element is picked at run time is still reachable by name, since the fields
/// describe one element and the subscript goes in front of them.
#[test]
fn an_element_picked_at_run_time_still_reaches_a_field() {
    let mut matrix = field("m_TransformMatrix", 0, 3, 0xF);
    matrix.kind = "float3x4".to_owned();
    let names = named(vec![matrix, field("m_Colour", 5, 1, 0b0111)]);
    // Within the element the register is the one the field sits at, whatever element it is.
    assert_eq!(
        names.element(0, "held", 5, &[0]).unwrap()[0],
        ("g_Buffer[held].m_Colour".to_owned(), 0)
    );
    assert_eq!(
        names.element(0, "held", 1, &[0]).unwrap()[0],
        ("(g_Buffer[held].m_TransformMatrix[1])".to_owned(), 0)
    );
    // A buffer read as one struct spells no subscript at all.
    assert_eq!(
        names.constant(0, 5, &[0]).unwrap()[0],
        ("g_Buffer.m_Colour".to_owned(), 0)
    );
}

/// One element is not an array, so a buffer that holds a single struct keeps its plain instance.
#[test]
fn a_buffer_of_one_element_is_not_an_array() {
    let names = named(vec![field("m_Near", 0, 1, 0xF), field("m_Far", 1, 1, 0xF)]);
    let mut out = Vec::new();
    let arrays = vec![0];
    buffer(&names, &Vec::new(), &arrays, 0, 2, &mut out);
    assert!(out.iter().any(|line| line == "    g_Buffer_t g_Buffer;"));
}

/// Slots come in order whatever order they were filled in, and filling one leaves the others as they were.
#[test]
fn a_slot_leaves_the_others_alone() {
    let mut slots = Slots::new();
    slots.insert(6, "six");
    slots.insert(2, "two");
    slots.insert(6, "another");
    assert_eq!(slots.len(), 2);
    assert_eq!((slots.slot_at(0), slots.slot_at(1)), (2, 6));
    assert_eq!(slots.get(2), Some(&"two"));
    assert_eq!(slots.get(6), Some(&"another"));
    assert_eq!(slots.get(4), None);
}

/// The members stand in order, and every component belongs to the one that it is read from.
#[test]
fn a_component_belongs_to_one_member() {
    let names = named(vec![
        field("m_Late", 1, 1, 0b1111),
        field("m_Early", 0, 1, 0b0110),
    ]);
    let declared: Vec<String> = names
        .constants
        .get(0)
        .unwrap()
        .declarations()
        .iter()
        .map(|line| line.trim().trim_end_matches(';').to_owned())
        .collect();
    assert_eq!(declared, ["float pad0_0", "float2 m_Early", "float pad0_3", "float4 m_Late"]);
    let at = |register: u32, lane: u8| names.constant(0, register, &[lane]).unwrap()[0].clone();
    assert_eq!(at(0, 2), ("g_Buffer.m_Early".to_owned(), 1));
    assert_eq!(at(0, 3), ("g_Buffer.pad0_3".to_owned(), 0));
    assert_eq!(at(1, 3), ("g_Buffer.m_Late".to_owned(), 3));
}

/// The places that a tree names, in order.
fn named_places(tree: &[Stmt]) -> Vec<usize> {
    tree.iter()
        .flat_map(|stmt| match stmt {
            Stmt::Op(at) => vec![*at],
            Stmt::If { at, yes, els } => [vec![*at], named_places(yes), named_places(els)].concat(),
            Stmt::Loop(inner) => named_places(inner),
        })
        .collect()
}

/// What a tree does not name opens a loop, splits an `if` or closes a block of it.
#[test]
fn only_markers_of_its_blocks_are_left_out_of_a_tree() {
    let opcodes = [
        Opcode::Else,
        Opcode::If,
        Opcode::Mul,
        Opcode::Else,
        Opcode::Loop,
        Opcode::Add,
        Opcode::EndLoop,
        Opcode::EndIf,
        Opcode::EndIf,
        Opcode::EndLoop,
        Opcode::Ret,
    ];
    let tree = structure(&program(&opcodes).instructions);
    assert_eq!(named_places(&tree), [0, 1, 2, 5, 8, 9, 10]);
}
