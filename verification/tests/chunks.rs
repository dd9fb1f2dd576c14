//! Chunks written and read back, and the container they come in.
use d3dasm::bytes::{read_u16, read_u32, read_u8};
use d3dasm::chunks::dxil::{parse_dxil, DxilData};
use d3dasm::chunks::ildb::parse_ildb;
use d3dasm::chunks::ildn::{parse_ildn, DebugName};
use d3dasm::chunks::lfs0::parse_lfs0;
use d3dasm::chunks::libf::parse_libf;
use d3dasm::chunks::libh::parse_libh;
use d3dasm::chunks::priv_::parse_priv;
use d3dasm::chunks::psv0::parse::parse_psv0;
use d3dasm::chunks::rdat::parse::parse_rdat;
use d3dasm::chunks::rdat::types::{RdatPart, RuntimeData};
use d3dasm::chunks::rdef::parse::parse_rdef;
use d3dasm::chunks::rts0::{
    parse_rts0, DescriptorRange, DescriptorRangeType, RootParameter, RootParameterType, RootSignature, ShaderVisibility,
};
use d3dasm::chunks::sfi0::{parse_sfi0, ShaderFeatureInfo};
use d3dasm::chunks::signature::{parse_signature, write_signature, SignatureElement};
use d3dasm::chunks::stat::parse_stat;
use d3dasm::container::{scan_dxbc, RawChunk};
use d3dasm::parse;
use d3dasm::report::report;
use d3dasm::shex::decode::{decode, decode_with_fourcc};
use d3dasm::shex::encode::encode;
use d3dasm::shex::fmt::disassemble;
use d3dasm::shex::ir::{FlagNames, Words};
use d3dasm::trial::{try_all, try_chunk, Outcome, Trial};
use d3dasm::util::read_cstring;

#[test]
fn numbers_are_read_low_byte_first() {
    let data = [1u8, 2, 3, 4, 5];
    assert_eq!(read_u32(&data, 1), Some(0x0504_0302));
    assert_eq!(read_u32(&data, 2), None);
    assert_eq!(read_u16(&data, 3), Some(0x0504));
    assert_eq!(read_u16(&data, 4), None);
    assert_eq!(read_u8(&data, 4), Some(5));
    assert_eq!(read_u8(&data, 5), None);
}

#[test]
fn bytes_that_are_no_text_read_as_none() {
    assert_eq!(read_cstring(b"caf\xc3\xa9\0", 0), "caf\u{e9}");
    assert_eq!(read_cstring(b"\xff\xfe\0", 0), "");
}

#[test]
fn short_lists_hold_what_was_put_in() {
    let words = Words::from_words(&[1, 2, 3, 4, 5, 6]);
    assert_eq!(words.as_slice(), [1, 2, 3, 4, 5, 6]);
    assert_eq!(words.clone().as_slice(), [1, 2, 3, 4, 5, 6]);
    let mut flags = FlagNames::new();
    flags.push("a");
    flags.push("b");
    assert_eq!(flags.as_slice(), ["a", "b"]);
}

#[test]
fn a_debug_name_comes_back() {
    let name = DebugName { name: "shader.pdb".to_owned() };
    let data = name.write_payload();
    assert_eq!(parse_ildn(&data).unwrap().name, "shader.pdb");
    assert_eq!(name.text(), "// Debug Name: shader.pdb\n");
    assert!(parse_ildn(&[]).is_none());
}

#[test]
fn opaque_chunks_keep_their_bytes() {
    let data: Vec<u8> = (0..20).collect();
    assert_eq!(parse_ildb(&data).unwrap().write_payload(), data);
    assert_eq!(parse_ildb(&data).unwrap().text(), "// Debug Data: 20 bytes\n");
    let held = parse_priv(&data).unwrap();
    assert_eq!(held.guid.unwrap()[..], data[..16]);
    assert_eq!(held.write_payload(), data);
    assert!(parse_priv(&data[..15]).unwrap().guid.is_none());
    assert_eq!(parse_libh(&data).unwrap().text(), "// Library Header: 20 bytes\n");
    assert_eq!(parse_libf(&data).unwrap().function_count, Some(0x0302_0100));
    assert_eq!(parse_libf(&data[..3]).unwrap().function_count, None);
    assert_eq!(parse_lfs0(&data).unwrap().signature_count, Some(0x0302_0100));
}

#[test]
fn feature_flags_come_back() {
    let held = ShaderFeatureInfo { flags: 0x1_0000_0003 };
    let data = held.write_payload();
    assert_eq!(parse_sfi0(&data).unwrap().flags, 0x1_0000_0003);
    assert!(held.has(1) && held.has(2) && !held.has(4));
}

#[test]
fn dxil_comes_back() {
    let held = DxilData {
        shader_kind: 5,
        major_version: 6,
        minor_version: 2,
        dxil_version: 0x102,
        bitcode: vec![0x42, 0x43, 0xC0, 0xDE],
    };
    let data = held.write_payload();
    let back = parse_dxil(&data).unwrap();
    assert_eq!((back.shader_kind, back.major_version, back.minor_version), (5, 6, 2));
    assert_eq!(back.bitcode, held.bitcode);
    assert!(parse_dxil(&data[..23]).is_none());
}

#[test]
fn statistics_come_back() {
    let data: Vec<u8> = (0..29u32).flat_map(|n| n.to_le_bytes()).collect();
    assert!(parse_stat(&data[..115]).is_none());
    let held = parse_stat(&data).unwrap();
    assert_eq!(held.instruction_count, 0);
    assert_eq!(held.temp_register_count, 1);
    let again = parse_stat(&held.write_payload()).unwrap();
    assert_eq!(again.temp_register_count, 1);
    assert_eq!(again.write_payload(), held.write_payload());
}

#[test]
fn a_root_signature_comes_back() {
    let held = RootSignature {
        version: 1,
        flags: 1,
        parameters: vec![
            RootParameter {
                param_type: RootParameterType::Constants32Bit { register: 2, space: 0, num_values: 4 },
                visibility: ShaderVisibility::Pixel,
            },
            RootParameter {
                param_type: RootParameterType::DescriptorTable {
                    ranges: vec![DescriptorRange {
                        range_type: DescriptorRangeType::Srv,
                        num_descriptors: 3,
                        base_shader_register: 0,
                        register_space: 0,
                        offset_in_descriptors_from_table_start: 0xFFFF_FFFF,
                    }],
                },
                visibility: ShaderVisibility::All,
            },
        ],
        static_samplers: Vec::new(),
    };
    let data = held.write_payload();
    let back = parse_rts0(&data).unwrap();
    assert_eq!(back.write_payload(), data);
    assert_eq!(back.text(), held.text());
    assert!(parse_rts0(&data[..23]).is_none());
}

fn position() -> SignatureElement {
    SignatureElement {
        semantic_name: "POSITION".to_owned(),
        semantic_index: 0,
        system_value: 0,
        component_type: 3,
        register: 0,
        mask: 0xF,
        rw_mask: 0xF,
        stream: None,
        min_precision: None,
    }
}

#[test]
fn a_signature_comes_back() {
    let mut coordinate = position();
    coordinate.semantic_name = "TEXCOORD".to_owned();
    coordinate.semantic_index = 12;
    coordinate.register = 1;
    coordinate.mask = 3;
    let chunk = write_signature(*b"ISGN", &[position(), coordinate]);
    let back = parse_signature("ISGN", &chunk.data);
    assert_eq!(back.len(), 2);
    assert_eq!(back[1].semantic_name, "TEXCOORD");
    assert_eq!(back[1].name_with_index_len(), 10);
    assert_eq!(back[1].fmt_name_with_index(), "TEXCOORD12");
    assert_eq!(back[1].fmt_columns(), "  float v1.xy");
    assert!(parse_signature("ISGN", &chunk.data[..7]).is_empty());
}

#[test]
fn runtime_data_comes_back() {
    let held = RuntimeData {
        version: 0x10,
        parts: vec![
            RdatPart::StringBuffer(b"main\0\0\0\0".to_vec()),
            RdatPart::IndexArrays(vec![1, 7]),
            RdatPart::RawBytes(vec![1, 2, 3, 4]),
        ],
    };
    let data = held.write_payload();
    let back = parse_rdat(&data).unwrap();
    assert_eq!(back.version, 0x10);
    assert_eq!(back.parts.len(), 3);
    assert_eq!(back.write_payload(), data);
    assert!(parse_rdat(&data[..7]).is_none());
}

#[test]
fn too_little_is_no_chunk() {
    assert!(parse_rdef(&[0; 27]).is_none());
    assert!(parse_psv0(&[0; 3]).is_none());
    assert_eq!(
        decode(&[0; 4]).unwrap_err().message,
        "SHEX/SHDR chunk too short: 4 bytes (minimum 8)"
    );
}

fn shex() -> Vec<u8> {
    [0x50u32, 3, 62 | 1 << 24].iter().flat_map(|n| n.to_le_bytes()).collect()
}

#[test]
fn a_program_keeps_its_tag_and_bytes() {
    let program = decode_with_fourcc(&shex(), *b"SHDR").unwrap();
    assert_eq!(program.fourcc, *b"SHDR");
    assert_eq!(encode(&program), shex());
}

fn container(chunks: &[(&[u8; 4], Vec<u8>)]) -> Vec<u8> {
    let mut body = Vec::new();
    let mut table = Vec::new();
    let start = 32 + 4 * chunks.len();
    for (tag, data) in chunks {
        table.extend(((start + body.len()) as u32).to_le_bytes());
        body.extend_from_slice(&tag[..]);
        body.extend((data.len() as u32).to_le_bytes());
        body.extend(data);
    }
    let mut out = b"DXBC".to_vec();
    out.extend([0; 16]);
    out.extend(1u32.to_le_bytes());
    out.extend(((start + body.len()) as u32).to_le_bytes());
    out.extend((chunks.len() as u32).to_le_bytes());
    out.extend(table);
    out.extend(body);
    out
}

#[test]
fn containers_are_found_behind_each_other() {
    let one = container(&[(b"SHEX", shex())]);
    let mut file = vec![7u8; 5];
    file.extend(&one);
    file.extend(b"DXBC");
    file.extend(&one);
    let found = scan_dxbc(&file);
    assert_eq!(found.len(), 2);
    assert_eq!(found[0].offset_in_file, 5);
    assert_eq!(found[0].total_size as usize, one.len());
    assert_eq!(found[0].chunks[0].fourcc, *b"SHEX");
    assert_eq!(found[0].chunks[0].data, shex());
    assert_eq!(found[1].offset_in_file, 9 + one.len());
    assert!(scan_dxbc(&one[..one.len() - 1]).is_empty());
}

#[test]
fn a_shader_lists_its_chunks() {
    let signature = write_signature(*b"ISGN", &[position()]).data;
    let name = DebugName { name: "a".to_owned() }.write_payload();
    let file = container(&[
        (b"LIBH", vec![0; 3]),
        (b"SHEX", shex()),
        (b"ISGN", signature),
        (b"ILDN", name),
        (b"WHAT", Vec::new()),
    ]);
    let shaders = parse(&file);
    assert_eq!(shaders.len(), 1);
    let shader = &shaders[0];
    assert_eq!(shader.offset(), 0);
    assert_eq!(shader.size() as usize, file.len());
    assert_eq!(shader.program().unwrap().shader_type, "ps");
    assert_eq!(shader.input_signature().unwrap().elements.len(), 1);
    assert!(shader.output_signature().is_none());
    assert!(shader.resource_def().is_none());
    assert_eq!(shader.debug_name().unwrap().name, "a");
    assert_eq!(shader.chunks().len(), 5);
    assert_eq!(
        shader.text(),
        format!(
            "// Input Signature:\n//   POSITION   float v0.xyzw\n//\n// Debug Name: a\n{}// Library Header: 3 bytes\n",
            disassemble(&shex())
        )
    );
}

#[test]
fn a_file_is_listed_under_headings() {
    let one = container(&[(b"LIBH", vec![0; 3])]);
    let mut file = vec![0u8; 26];
    file.extend(&one);
    let rule = "// ============================================================\n";
    assert_eq!(
        report("a.bin", &parse(&file)),
        format!(
            "// File: a.bin\n// Found 1 DXBC shader(s)\n\n{rule}// Shader #0: DXBC at 0x1A, size=47\n{rule}\
             // Library Header: 3 bytes\n\n"
        )
    );
    assert_eq!(report("b", &parse(&[])), "// File: b\n// Found 0 DXBC shader(s)\n\n");
}

#[test]
fn a_trial_tells_bytes_that_come_back_from_those_that_do_not() {
    // One word behind the program is not the program's.
    let mut longer = shex();
    longer.extend([0; 4]);
    // An index of no known representation takes no word of its own, and encodes as a number that does.
    let odd: Vec<u8> = [0x50u32, 4, 54 | 2 << 24, 1 << 20 | 7 << 22].iter().flat_map(|n| n.to_le_bytes()).collect();
    let file = container(&[
        (b"SHEX", shex()),
        (b"LIBH", vec![0; 3]),
        (b"SHDR", longer),
        (b"SHEX", vec![0; 7]),
        (b"SHEX", odd),
    ]);
    let at = |chunk: usize, trial: Trial| Outcome { container: 0, chunk, trial };
    assert_eq!(
        try_all(&scan_dxbc(&file)),
        [
            at(0, Trial::Same),
            at(2, Trial::Differs { size: 12, first: 12 }),
            at(3, Trial::Undecodable),
            at(4, Trial::Differs { size: 20, first: 4 }),
        ]
    );
    assert_eq!(try_chunk(&RawChunk { fourcc: *b"SHEX", data: shex() }), Trial::Same);
}

/// A column is as wide as its longest name has characters, however many bytes they take.
#[test]
fn a_name_is_as_long_as_its_characters() {
    let mut accented = position();
    accented.semantic_name = "\u{e9}".to_owned();
    accented.semantic_index = 12;
    assert_eq!(accented.name_with_index_len(), 3);
    assert_eq!(accented.fmt_name_with_index(), "\u{e9}12");
    assert_eq!(accented.text(), format!("\u{e9}12{}   float v0.xyzw", " ".repeat(21)));
    assert_eq!(position().text(), format!("POSITION{}   float v0.xyzw", " ".repeat(16)));
    let file = container(&[(b"ISGN", write_signature(*b"ISGN", &[accented, position()]).data)]);
    assert_eq!(
        parse(&file)[0].text(),
        "// Input Signature:\n//   \u{e9}12        float v0.xyzw\n//   POSITION   float v0.xyzw\n//\n"
    );
}

/// Words that are as long as they say, and say no more than their instruction, come back.
#[test]
fn every_kind_of_instruction_comes_back() {
    let temp = |mask: u32| 2 | mask << 4 | 1 << 20;
    let input = |mask: u32| 2 | mask << 4 | 1 << 12 | 1 << 20;
    let words: [&[u32]; 12] = [
        // Flags, a pixel input, an input that the pipeline fills, a constant buffer and a texture.
        &[106 | 1 << 24 | 9 << 11],
        &[98 | 3 << 24 | 2 << 11, input(15), 0],
        &[100 | 4 << 24 | 4 << 11, input(3), 1, 1],
        &[89 | 4 << 24 | 1 << 11, 2 | 1 << 2 | 0xE4 << 4 | 8 << 12 | 2 << 20, 0, 4],
        &[88 | 4 << 24 | 3 << 11 | 2 << 16, 7 << 12 | 1 << 20, 3, 0x5554],
        &[104 | 2 << 24, 3],
        &[105 | 4 << 24, 0, 8, 4],
        &[145 | 5 << 24, 1, 2, 7, 8],
        // A negated source, a source found at run time and one written out.
        &[
            8 << 24 | 1 << 13 | 5 << 19,
            temp(7),
            0,
            2 | 1 << 2 | 0xE4 << 4 | 1 << 20 | 1 << 31,
            0x41,
            1,
            1 | 4 << 12,
            9,
        ],
        &[
            54 | 8 << 24,
            temp(15),
            1,
            2 | 1 << 2 | 0xE4 << 4 | 3 << 12 | 2 << 20 | 3 << 25,
            0,
            5,
            2 | 2 << 2 | 1 << 20,
            0,
        ],
        // A texture read with offsets, a dimension and return types behind its token.
        &[
            45 | 10 << 24 | 1 << 31,
            1 | 15 << 9 | 1 << 31,
            2 | 1 << 31,
            3 | 5 << 6,
            temp(15),
            0,
            temp(0),
            1,
            temp(0),
            0,
        ],
        &[62 | 1 << 24],
    ];
    let mut all: Vec<u32> = vec![0x50, 0];
    words.iter().for_each(|each| all.extend(*each));
    all[1] = all.len() as u32;
    let bytes: Vec<u8> = all.iter().flat_map(|n| n.to_le_bytes()).collect();
    let program = decode(&bytes).unwrap();
    assert_eq!(program.instructions.len(), words.len());
    assert!(program.warnings.is_empty());
    assert_eq!(encode(&program), bytes);
}

/// What was parsed can be written, and parses to the same again.
#[test]
fn parsed_runtime_data_comes_back() {
    // Two parts that share their bytes, the second a table whose last record is cut short.
    let words: [u32; 10] = [0x10, 2, 16, 16, 11, 16, 9, 4, 5, 6];
    let data: Vec<u8> = words.iter().flat_map(|n| n.to_le_bytes()).collect();
    let once = parse_rdat(&data).unwrap();
    assert_eq!(once.parts.len(), 2);
    let written = once.write_payload();
    assert!(written.len() > data.len());
    let again = parse_rdat(&written).unwrap();
    assert_eq!(format!("{again:?}"), format!("{once:?}"));
}

/// What was parsed can be written, and parses to the same again.
#[test]
fn parsed_signatures_come_back() {
    for tag in [*b"ISGN", *b"OSG5", *b"PSG1"] {
        let name = std::str::from_utf8(&tag).unwrap();
        let mut element = position();
        element.stream = if name == "ISGN" { None } else { Some(2) };
        let mut data = write_signature(tag, &[element]).data;
        data.extend([1, 2, 3]);
        let once = parse_signature(name, &data);
        assert_eq!(once.len(), 1);
        let again = parse_signature(name, &write_signature(tag, &once).data);
        assert_eq!(format!("{again:?}"), format!("{once:?}"));
    }
}
