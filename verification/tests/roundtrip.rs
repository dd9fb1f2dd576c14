//! What is written comes back, on concrete values.
use d3dasm::chunks::psv0::parse::parse_psv0;
use d3dasm::chunks::rdat::types::PartType;
use d3dasm::chunks::rdef::parse::parse_rdef;
use d3dasm::chunks::rdef::{CBufferDef, CBufferVariable, MemberDesc, ResourceBinding, ResourceDef, TypeDesc};
use d3dasm::chunks::rts0::{DescriptorRangeType, ShaderVisibility};
use d3dasm::chunks::signature::MinPrecision;
use d3dasm::shader::{fmt_resource_def, fmt_signature};
use d3dasm::shex::ir::{GsOutputTopology, GsPrimitive, RegisterType, ReturnType};
use d3dasm::util::{read_cstring, StringTableWriter};

fn scalar(name: &str) -> TypeDesc {
    TypeDesc {
        class: 1,
        var_type: 3,
        rows: 1,
        columns: 4,
        elements: 0,
        members: Vec::new(),
        sm5_extra: Some([0; 4]),
        name: name.to_owned(),
    }
}

fn variable(name: &str, offset: u32, var_type: TypeDesc, default_value: Vec<u8>) -> CBufferVariable {
    CBufferVariable {
        name: name.to_owned(),
        offset,
        size: 16,
        flags: 2,
        var_type,
        default_value,
        texture_start: Some(0xFFFF_FFFF),
        texture_size: Some(0),
        sampler_start: Some(0xFFFF_FFFF),
        sampler_size: Some(0),
    }
}

fn resources() -> ResourceDef {
    let mut nested = scalar("Light");
    nested.class = 5;
    nested.members = vec![MemberDesc { name: "colour".to_owned(), member_type: scalar("float4"), offset: 0 }];
    ResourceDef {
        constant_buffers: vec![CBufferDef {
            name: "Globals".to_owned(),
            variables: vec![
                variable("g_Tint", 0, scalar("float4"), (0..16).collect()),
                variable("g_Light", 16, nested, Vec::new()),
            ],
            size: 32,
            flags: 0,
            cb_type: 0,
        }],
        bindings: vec![ResourceBinding {
            name: "Globals".to_owned(),
            input_type: 0,
            return_type: 0,
            dimension: 0,
            num_samples: 0,
            bind_point: 3,
            bind_count: 1,
            flags: 1,
        }],
        creator: "a compiler".to_owned(),
        target_version: 0xFFFF_0500,
        compile_flags: 0x100,
        rd11_extra: Some([0x3131_4452, 60, 24, 32, 40, 36, 12, 0]),
    }
}

#[test]
fn resource_definitions_come_back() {
    let held = resources();
    let back = parse_rdef(&held.write_payload()).unwrap();
    assert_eq!(format!("{back:?}"), format!("{held:?}"));
}

#[test]
fn resource_definitions_are_listed() {
    let mut out = String::new();
    fmt_resource_def(&mut out, &resources());
    assert_eq!(
        out,
        "// Compiled with: a compiler\n\
         //\n\
         // Resource Bindings:\n\
         // Name    Type         Dim      Slot Count Flags\n\
         // ------- ------------ -------- ---- ----- -----\n\
         // Globals cbuffer      NA       3    1     userPacked\n\
         //\n\
         // cbuffer Globals (32 bytes)\n\
         //   Name    Offset  Size\n\
         //   ------- ------  ----\n\
         //   g_Tint  0       16\n\
         //   g_Light 16      16\n\
         //\n"
    );
    fmt_signature(&mut out, "Nothing", &Vec::new());
    assert!(out.ends_with("16\n//\n"));
}

#[test]
fn pipeline_state_comes_back() {
    let mut data: Vec<u8> = Vec::new();
    data.extend(24u32.to_le_bytes());
    data.extend((0..24).map(|_| 0u8));
    data.extend(1u32.to_le_bytes());
    data.extend(16u32.to_le_bytes());
    for n in [2u32, 0, 5, 7] {
        data.extend(n.to_le_bytes());
    }
    let held = parse_psv0(&data).unwrap();
    assert_eq!(held.resources.len(), 1);
    assert_eq!((held.resources[0].lower_bound, held.resources[0].upper_bound), (5, 7));
    assert_eq!(held.write_payload(), data);
    let back = parse_psv0(&held.write_payload()).unwrap();
    assert_eq!(format!("{back:?}"), format!("{held:?}"));
}

#[test]
fn numbers_keep_their_raw_value() {
    for v in 0..256 {
        assert_eq!(RegisterType::from_u32(v).to_u32(), v);
        assert_eq!(ReturnType::from_u32(v).to_u32(), v);
        assert_eq!(MinPrecision::from_u32(v).to_u32(), v);
    }
    for v in [1, 2, 3, 6, 7] {
        assert_eq!(GsPrimitive::from_raw(v).to_raw(), v);
    }
    for v in [1, 3, 5] {
        assert_eq!(GsOutputTopology::from_raw(v).to_raw(), v);
    }
    for v in 0..6 {
        assert_eq!(ShaderVisibility::from_u32(v).to_u32(), v);
    }
    for v in 0..4 {
        assert_eq!(DescriptorRangeType::from_u32(v).to_u32(), v);
    }
    assert_eq!(PartType::from_u32(1).unwrap().name(), "StringBuffer");
    assert!(PartType::from_u32(0x1_0000).is_none());
}

#[test]
fn a_string_keeps_its_place_in_a_table() {
    let mut table = StringTableWriter::new(8);
    let first = table.add("one");
    let second = table.add("two");
    assert_eq!(table.add("one"), first);
    assert_eq!(table.offset("two"), second);
    assert_eq!((first, second), (8, 12));
    let mut data = vec![0u8; 8];
    data.extend(table.finish());
    assert_eq!(read_cstring(&data, second as usize), "two");
}

/// What was parsed can be written, and parses to the same again.
#[test]
fn parsed_resource_definitions_come_back() {
    let mut data = resources().write_payload();
    // Bytes that nothing points to are not kept.
    data.extend([0xAB; 5]);
    let once = parse_rdef(&data).unwrap();
    let again = parse_rdef(&once.write_payload()).unwrap();
    assert_eq!(format!("{again:?}"), format!("{once:?}"));
}

#[test]
fn a_copied_type_holds_the_same() {
    let mut outer = scalar("outer");
    outer.members.push(MemberDesc { name: "inner".to_owned(), member_type: scalar("inner"), offset: 4 });
    assert_eq!(format!("{:?}", outer.clone()), format!("{outer:?}"));
    assert_eq!(format!("{:?}", outer.members[0].clone()), format!("{:?}", outer.members[0]));
}
