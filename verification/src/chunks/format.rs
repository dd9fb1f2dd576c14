//! Where the fields of the chunks lie.
use super::dxil::{holds, is_dxil, DxilData};
use super::psv0::parse::{element_of, info_1_of, psv_of, resource_of, stage_of};
use super::psv0::types::{PSVShaderKind, ShaderStageInfo};
use super::rdat::parse::{part_of, parts_read, table_type};
use super::rdat::types::{PartModel, PartType};
use super::rdef::{ResourceDimension, ResourceInputType};
use super::rts0::{parameter_of, parameters_of, ranges_of, root_of, DescriptorRangeType, ShaderVisibility};
use super::sfi0::{flag_bit, flag_name, flags_of};
use super::signature::{element_count, elements_of, ComponentType, MinPrecision, SignatureVersion};
use super::stat::stats_of;
use crate::bytes::{fitting, le32, stored};
use crate::container::{chunk_of, container_at, containers_from, kind_of};
use crate::util::cstring;
use vstd::prelude::*;

verus! {

proof fn lemma_number(data: Seq<u8>, at: int)
    ensures
        le32(data, at) == stored(data, at),
{
}

/// An element of a signature: the words are the place of its name, its semantic index, system value, component type and
/// register, then a byte with its mask and one with the components that are read or never written. The later layouts have
/// the stream in front, and one of them the precision behind. An element takes 24, 28 or 32 bytes, the first one behind the
/// header of 8.
#[verifier::spinoff_prover]
#[verifier::rlimit(40)]
pub proof fn law_signature_layout(data: Seq<u8>, ver: SignatureVersion, i: int)
    requires
        0 <= i < elements_of(data, ver).len(),
    ensures
        ({
            let e = elements_of(data, ver)[i];
            let stride: int = match ver {
                SignatureVersion::V0 => 24,
                SignatureVersion::V5 => 28,
                SignatureVersion::V1 => 32,
            };
            let base = 8 + i * stride;
            let at = if ver is V0 { base } else { base + 4 };
            &&& base + stride <= data.len()
            &&& e.semantic_name == cstring(data, stored(data, at))
            &&& e.semantic_index == stored(data, at + 4)
            &&& e.system_value == stored(data, at + 8)
            &&& e.component_type == stored(data, at + 12)
            &&& e.register == stored(data, at + 16)
            &&& e.mask == data[at + 20]
            &&& e.rw_mask == data[at + 21]
            &&& ver is V0 ==> e.stream is None
            &&& !(ver is V0) ==> e.stream is Some && e.stream->0 == stored(data, base)
            &&& ver is V1 ==> e.min_precision is Some && e.min_precision->0.raw() == stored(data, at + 24)
            &&& !(ver is V1) ==> e.min_precision is None
        }),
{
    let stride = ver.width();
    let count = element_count(data, ver);
    let at = 8 + i * stride + ver.lead();
    lemma_number(data, at);
    lemma_number(data, at + 24);
    lemma_number(data, 0);
    assert((i + 1) * stride <= count * stride) by (nonlinear_arith)
        requires
            i + 1 <= count,
            stride > 0,
    ;
    assert((i + 1) * stride == i * stride + stride) by (nonlinear_arith);
    if le32(data, 0) * stride + 8 > data.len() {
        let room = data.len() - 8;
        assert(count * stride <= room) by (nonlinear_arith)
            requires
                count == room / stride as int,
                stride > 0,
        ;
    } else {
        assert(count == le32(data, 0));
    }
    super::signature::law_min_precision_keeps_raw(le32(data, at + 24));
}

/// Statistics: a word for each count, in this order, with words of no known meaning behind the conversions and behind the
/// number of vertices; and in the longer form eight more.
pub proof fn law_statistics_layout(data: Seq<u8>)
    requires
        data.len() >= 152,
    ensures
        ({
            let s = stats_of(data);
            &&& s.instruction_count == stored(data, 0)
            &&& s.temp_register_count == stored(data, 4)
            &&& s.define_count == stored(data, 8)
            &&& s.declaration_count == stored(data, 12)
            &&& s.float_instruction_count == stored(data, 16)
            &&& s.int_instruction_count == stored(data, 20)
            &&& s.uint_instruction_count == stored(data, 24)
            &&& s.static_flow_control_count == stored(data, 28)
            &&& s.dynamic_flow_control_count == stored(data, 32)
            &&& s.macro_instruction_count == stored(data, 36)
            &&& s.temp_array_count == stored(data, 40)
            &&& s.array_instruction_count == stored(data, 44)
            &&& s.cut_instruction_count == stored(data, 48)
            &&& s.emit_instruction_count == stored(data, 52)
            &&& s.texture_normal_instructions == stored(data, 56)
            &&& s.texture_load_instructions == stored(data, 60)
            &&& s.texture_comp_instructions == stored(data, 64)
            &&& s.texture_bias_instructions == stored(data, 68)
            &&& s.texture_gradient_instructions == stored(data, 72)
            &&& s.mov_instruction_count == stored(data, 76)
            &&& s.movc_instruction_count == stored(data, 80)
            &&& s.conversion_instruction_count == stored(data, 84)
            &&& s.gs_input_primitive == stored(data, 96)
            &&& s.gs_output_topology == stored(data, 100)
            &&& s.gs_max_output_vertex_count == stored(data, 104)
            &&& s.is_sample_frequency <==> stored(data, 116) != 0
            &&& s.gs_instance_count == stored(data, 120)
            &&& s.hs_control_points == stored(data, 124)
            &&& s.hs_output_primitive == stored(data, 128)
            &&& s.hs_partitioning == stored(data, 132)
            &&& s.ds_tessellator_domain == stored(data, 136)
            &&& s.barrier_instructions == stored(data, 140)
            &&& s.interlocked_instructions == stored(data, 144)
            &&& s.texture_store_instructions == stored(data, 148)
        }),
{
}

/// The shorter form says the same of the words that it has, and nothing of the others.
pub proof fn law_short_statistics_agree(data: Seq<u8>, longer: Seq<u8>)
    requires
        120 <= data.len() < 152,
        longer.len() >= 152,
        longer.take(data.len() as int) == data,
    ensures
        ({
            let (s, l) = (stats_of(data), stats_of(longer));
            &&& s.instruction_count == l.instruction_count
            &&& s.temp_register_count == l.temp_register_count
            &&& s.declaration_count == l.declaration_count
            &&& s.gs_max_output_vertex_count == l.gs_max_output_vertex_count
            &&& s.is_sample_frequency == l.is_sample_frequency
            &&& s.gs_instance_count == 0 && s.hs_control_points == 0 && s.hs_output_primitive == 0 && s.hs_partitioning == 0
            &&& s.ds_tessellator_domain == 0 && s.barrier_instructions == 0 && s.interlocked_instructions == 0
            &&& s.texture_store_instructions == 0
        }),
{
    assert forall|i: int| 0 <= i < 120 implies #[trigger] longer[i] == data[i] by {
        assert(longer.take(data.len() as int)[i] == longer[i]);
    }
}

/// A DXIL chunk: the first byte holds the version, major above minor, the upper half of the first word the shader's kind;
/// the tag `DXIL` follows at 8, then its version, and how far behind the tag the bitcode starts and how long it is.
#[verifier::spinoff_prover]
#[verifier::rlimit(40)]
pub proof fn law_dxil_layout(v: DxilData, data: Seq<u8>)
    requires
        is_dxil(data),
        holds(v, data),
    ensures
        v.minor_version == data[0] % 16,
        v.major_version == data[0] / 16,
        v.shader_kind == data[2] + 0x100 * data[3],
        data[8] == 0x44 && data[9] == 0x58 && data[10] == 0x49 && data[11] == 0x4C,
        v.dxil_version == stored(data, 12),
        v.bitcode@.len() == stored(data, 20),
        forall|i: int| 0 <= i < v.bitcode@.len() ==> #[trigger] v.bitcode@[i] == data[8 + stored(data, 16) + i],
{
    lemma_number(data, 0);
    lemma_number(data, 8);
    lemma_number(data, 12);
    lemma_number(data, 16);
    lemma_number(data, 20);
    lemma_version(data[0] as int, data[1] as int, data[2] as int, data[3] as int);
    lemma_tag(data[8] as int, data[9] as int, data[10] as int, data[11] as int);
    assert(v.bitcode@ == data.subrange(8 + stored(data, 16), 8 + stored(data, 16) + stored(data, 20)));
}

proof fn lemma_version(a: int, b: int, c: int, d: int)
    requires
        0 <= a < 256,
        0 <= b < 256,
        0 <= c < 256,
        0 <= d < 256,
    ensures
        ({
            let w = a + 0x100 * (b + 0x100 * (c + 0x100 * d));
            &&& w % 16 == a % 16
            &&& (w / 16) % 16 == a / 16
            &&& w / 65536 == c + 0x100 * d
        }),
{
}

proof fn lemma_tag(a: int, b: int, c: int, d: int)
    requires
        0 <= a < 256,
        0 <= b < 256,
        0 <= c < 256,
        0 <= d < 256,
        a + 0x100 * (b + 0x100 * (c + 0x100 * d)) == 0x4C49_5844,
    ensures
        a == 0x44 && b == 0x58 && c == 0x49 && d == 0x4C,
{
}

/// The feature flags: a word of the lower 32 and one of the upper 32.
pub proof fn law_feature_layout(data: Seq<u8>)
    requires
        data.len() >= 8,
    ensures
        flags_of(data) == stored(data, 0) + 0x1_0000_0000 * stored(data, 4),
{
    lemma_number(data, 0);
    lemma_number(data, 4);
}

/// A container: its size stands at 24 and how many chunks it has at 28, then the offset of each, and there the chunk's tag,
/// its size and its bytes.
#[verifier::spinoff_prover]
#[verifier::rlimit(40)]
pub proof fn law_container_layout(data: Seq<u8>, at: int, i: int)
    requires
        container_at(data, at) is Some,
        0 <= i < container_at(data, at)->0.chunks.len(),
    ensures
        ({
            let c = container_at(data, at)->0;
            let from = at + stored(data, at + 32 + 4 * i);
            &&& data[at] == 0x44 && data[at + 1] == 0x58 && data[at + 2] == 0x42 && data[at + 3] == 0x43
            &&& c.offset == at
            &&& c.size == stored(data, at + 24)
            &&& c.chunks.len() == stored(data, at + 28)
            &&& from + 8 + stored(data, from + 4) <= at + c.size <= data.len()
            &&& c.chunks[i].0.len() == 4
            &&& forall|k: int| 0 <= k < 4 ==> #[trigger] c.chunks[i].0[k] == data[from + k]
            &&& c.chunks[i].1.len() == stored(data, from + 4)
            &&& forall|k: int| 0 <= k < c.chunks[i].1.len() ==> #[trigger] c.chunks[i].1[k] == data[from + 8 + k]
        }),
{
    lemma_number(data, at + 24);
    lemma_number(data, at + 28);
    lemma_number(data, at + 32 + 4 * i);
    let from = at + le32(data, at + 32 + 4 * i);
    lemma_number(data, from + 4);
    assert(crate::container::chunk_fits(data, at, le32(data, at + 24) as int, i));
    assert(container_at(data, at)->0.chunks[i] == chunk_of(data, at, i));
}

/// A root signature: a header of six words, which are its version, how many parameters there are and where, how many static
/// samplers and where, and its flags.
pub proof fn law_root_layout(data: Seq<u8>)
    requires
        root_of(data) is Some,
    ensures
        ({
            let r = root_of(data)->0;
            &&& data.len() >= 24
            &&& r.version == stored(data, 0)
            &&& r.flags == stored(data, 20)
            &&& stored(data, 8) + stored(data, 4) * 12 <= data.len() ==> r.parameters.len() == stored(data, 4)
            &&& stored(data, 16) + stored(data, 12) * 52 <= data.len() ==> r.static_samplers.len() == stored(data, 12)
        }),
{
    lemma_number(data, 4);
    lemma_number(data, 8);
    lemma_number(data, 12);
    lemma_number(data, 16);
    lemma_parameters(
        data,
        le32(data, 8) as int,
        fitting(data.len(), le32(data, 8) as nat, 12, le32(data, 4) as nat),
    );
}

proof fn lemma_parameters(data: Seq<u8>, offset: int, n: nat)
    requires
        parameters_of(data, offset, n) is Some,
    ensures
        parameters_of(data, offset, n)->0.len() == n,
        forall|i: int|
            0 <= i < n ==> Some(#[trigger] parameters_of(data, offset, n)->0[i]) == parameter_of(data, offset + i * 12),
    decreases n,
{
    if n > 0 {
        lemma_parameters(data, offset, (n - 1) as nat);
    }
}

/// A parameter of a root signature: three words for its kind, its visibility and where its payload is. A table's payload is
/// how many ranges it has and where, a constant's are its register, space and how many values it has, a descriptor's its
/// register and space.
#[verifier::spinoff_prover]
#[verifier::rlimit(40)]
pub proof fn law_parameter_layout(data: Seq<u8>, i: int)
    requires
        root_of(data) is Some,
        0 <= i < root_of(data)->0.parameters.len(),
    ensures
        ({
            let p = root_of(data)->0.parameters[i];
            let entry = stored(data, 8) + i * 12;
            let kind = stored(data, entry);
            let at = stored(data, entry + 8);
            &&& p.visibility == ShaderVisibility::of(stored(data, entry + 4) as u32)
            &&& kind == 0 ==> p.param_type is DescriptorTable && (stored(data, at + 4) + stored(data, at) * 20 <= data.len()
                ==> p.param_type->ranges.len() == stored(data, at))
            &&& kind == 1 ==> p.param_type is Constants32Bit && p.param_type->Constants32Bit_register == stored(data, at)
                && p.param_type->Constants32Bit_space == stored(data, at + 4) && p.param_type->num_values == stored(
                data,
                at + 8,
            )
            &&& kind == 2 ==> p.param_type is Cbv && p.param_type->Cbv_register == stored(data, at)
                && p.param_type->Cbv_space == stored(data, at + 4)
            &&& kind == 3 ==> p.param_type is Srv && p.param_type->Srv_register == stored(data, at)
                && p.param_type->Srv_space == stored(data, at + 4)
            &&& kind == 4 ==> p.param_type is Uav && p.param_type->Uav_register == stored(data, at)
                && p.param_type->Uav_space == stored(data, at + 4)
        }),
{
    lemma_number(data, 8);
    lemma_parameters(
        data,
        le32(data, 8) as int,
        fitting(data.len(), le32(data, 8) as nat, 12, le32(data, 4) as nat),
    );
    let entry = stored(data, 8) + i * 12;
    lemma_number(data, entry);
    lemma_number(data, entry + 4);
    lemma_number(data, entry + 8);
    let at = stored(data, entry + 8);
    lemma_number(data, at);
    lemma_number(data, at + 4);
    lemma_number(data, at + 8);
    assert(Some(root_of(data)->0.parameters[i]) == parameter_of(data, entry));
}

/// A range of a descriptor table: five words for its type, how many descriptors it has, its first register, its space and
/// its offset in the table.
pub proof fn law_range_layout(data: Seq<u8>, table: int, i: int)
    requires
        0 <= i < ranges_of(data, table).len(),
    ensures
        ({
            let r = ranges_of(data, table)[i];
            let at = stored(data, table + 4) + i * 20;
            &&& r.range_type == DescriptorRangeType::of(stored(data, at) as u32)
            &&& r.num_descriptors == stored(data, at + 4)
            &&& r.base_shader_register == stored(data, at + 8)
            &&& r.register_space == stored(data, at + 12)
            &&& r.offset_in_descriptors_from_table_start == stored(data, at + 16)
        }),
{
    lemma_number(data, table + 4);
    lemma_number(data, stored(data, table + 4) + i * 20);
}

/// A static sampler: thirteen words, in this order.
pub proof fn law_sampler_layout(data: Seq<u8>, i: int)
    requires
        root_of(data) is Some,
        0 <= i < root_of(data)->0.static_samplers.len(),
    ensures
        ({
            let s = root_of(data)->0.static_samplers[i];
            let at = stored(data, 16) + i * 52;
            &&& s.filter == stored(data, at)
            &&& s.address_u == stored(data, at + 4)
            &&& s.address_v == stored(data, at + 8)
            &&& s.address_w == stored(data, at + 12)
            &&& s.mip_lod_bias == stored(data, at + 16)
            &&& s.max_anisotropy == stored(data, at + 20)
            &&& s.comparison_func == stored(data, at + 24)
            &&& s.border_color == stored(data, at + 28)
            &&& s.min_lod == stored(data, at + 32)
            &&& s.max_lod == stored(data, at + 36)
            &&& s.shader_register == stored(data, at + 40)
            &&& s.register_space == stored(data, at + 44)
            &&& s.visibility == ShaderVisibility::of(stored(data, at + 48) as u32)
        }),
{
    lemma_number(data, 16);
    lemma_number(data, stored(data, 16) + i * 52 + 48);
}

/// What the visibilities and range types are stored as.
pub proof fn law_root_numbers(v: u32)
    ensures
        ShaderVisibility::of(v) is Vertex <==> v == 1,
        ShaderVisibility::of(v) is Hull <==> v == 2,
        ShaderVisibility::of(v) is Domain <==> v == 3,
        ShaderVisibility::of(v) is Geometry <==> v == 4,
        ShaderVisibility::of(v) is Pixel <==> v == 5,
        DescriptorRangeType::of(v) is Uav <==> v == 1,
        DescriptorRangeType::of(v) is Cbv <==> v == 2,
        DescriptorRangeType::of(v) is Sampler <==> v == 3,
{
}

/// What the precisions are stored as.
pub proof fn law_precision_numbers(v: u32)
    ensures
        MinPrecision::of(v) is Default <==> v == 0,
        MinPrecision::of(v) is Float16 <==> v == 1,
        MinPrecision::of(v) is Float2_8 <==> v == 2,
        MinPrecision::of(v) is Reserved <==> v == 3,
        MinPrecision::of(v) is SInt16 <==> v == 4,
        MinPrecision::of(v) is UInt16 <==> v == 5,
        MinPrecision::of(v) is Any16 <==> v == 0xF0,
        MinPrecision::of(v) is Any10 <==> v == 0xF1,
{
}

/// The parts of runtime data: in a versioned chunk, where each part starts stands behind the two words of the header; there
/// are the part's type, its size and its bytes.
pub proof fn law_runtime_layout(data: Seq<u8>, n: nat)
    requires
        parts_read(data, true, n) is Some,
        parts_read(data, true, n)->0.going,
        n > 0,
    ensures
        ({
            let part = parts_read(data, true, n)->0.parts[n - 1];
            let at = stored(data, 8 + 4 * (n - 1));
            &&& parts_read(data, true, n)->0.parts.len() == n
            &&& at + 8 + stored(data, at + 4) <= data.len()
            &&& Some(part) == part_of(
                stored(data, at) as u32,
                data.subrange(at + 8, at + 8 + stored(data, at + 4)),
            )
        }),
{
    lemma_going(data, n);
    lemma_number(data, 8 + 4 * (n - 1));
    let at = stored(data, 8 + 4 * (n - 1));
    lemma_number(data, at);
    lemma_number(data, at + 4);
}

proof fn lemma_going(data: Seq<u8>, n: nat)
    requires
        parts_read(data, true, n) is Some,
        parts_read(data, true, n)->0.going,
    ensures
        parts_read(data, true, n)->0.parts.len() == n,
    decreases n,
{
    if n > 0 {
        lemma_going(data, (n - 1) as nat);
    }
}

/// A part by its type: 1 is the strings, 2 the index arrays, 5 raw bytes, and a table states how many records it has and
/// how long each is before them.
pub proof fn law_part_layout(part_type: u32, data: Seq<u8>)
    requires
        data.len() >= 8,
    ensures
        part_type == 1 ==> part_of(part_type, data) == Some(PartModel::StringBuffer(data)),
        part_type == 2 ==> part_of(part_type, data) is Some && part_of(part_type, data)->0 is IndexArrays,
        part_type == 2 ==> forall|i: int|
            0 <= i < data.len() / 4 ==> #[trigger] part_of(part_type, data)->0->IndexArrays_0[i] == stored(data, 4 * i),
        part_type == 5 ==> part_of(part_type, data) == Some(PartModel::RawBytes(data)),
        table_type(part_type) && part_type != 1 && part_type != 2 && part_type != 5 ==> ({
            let part = part_of(part_type, data);
            &&& part is Some && part->0 is RecordTable
            &&& part->0->record_stride == stored(data, 4)
            &&& stored(data, 0) * stored(data, 4) + 8 <= data.len() ==> part->0->records.len() == stored(data, 0)
        }),
{
    lemma_number(data, 0);
    lemma_number(data, 4);
}

/// The runtime info of a PSV0 chunk, behind its size: the words of its stage, the wave lane counts, then the bytes that
/// version one adds and the thread counts that version two adds.
#[verifier::spinoff_prover]
#[verifier::rlimit(40)]
pub proof fn law_runtime_info_layout(data: Seq<u8>)
    requires
        psv_of(data) is Some,
    ensures
        ({
            let p = psv_of(data)->0;
            &&& p.info_size == stored(data, 0)
            &&& p.min_wave_lane_count == stored(data, 20)
            &&& p.max_wave_lane_count == stored(data, 24)
            &&& p.runtime_info_1 is Some <==> stored(data, 0) >= 36
            &&& p.runtime_info_1 is Some ==> {
                let r = p.runtime_info_1->0;
                &&& r.shader_stage == data[28]
                &&& r.uses_view_id == data[29]
                &&& r.max_vert_or_patch_prim == data[30] + 0x100 * data[31]
                &&& r.sig_input_elements == data[32]
                &&& r.sig_output_elements == data[33]
                &&& r.sig_patch_const_or_prim_elements == data[34]
                &&& r.sig_input_vectors == data[35]
                &&& forall|k: int| 0 <= k < 4 ==> #[trigger] r.sig_output_vectors[k] == data[36 + k]
            }
            &&& p.runtime_info_2 is Some <==> stored(data, 0) >= 48
            &&& p.runtime_info_2 is Some ==> p.runtime_info_2->0.num_threads_x == stored(data, 40)
                && p.runtime_info_2->0.num_threads_y == stored(data, 44) && p.runtime_info_2->0.num_threads_z == stored(
                data,
                48,
            )
            &&& p.entry_function_name is Some <==> stored(data, 0) >= 52
            &&& p.entry_function_name is Some ==> p.entry_function_name->0 == stored(data, 52)
            &&& p.num_bytes_group_shared_memory is Some <==> stored(data, 0) >= 56
            &&& p.num_bytes_group_shared_memory is Some ==> p.num_bytes_group_shared_memory->0 == stored(data, 56)
        }),
{
    lemma_number(data, 0);
    lemma_number(data, 20);
    lemma_number(data, 24);
    lemma_number(data, 40);
    lemma_number(data, 44);
    lemma_number(data, 48);
    lemma_number(data, 52);
    lemma_number(data, 56);
    if stored(data, 0) >= 36 {
        let r = psv_of(data)->0.runtime_info_1->0;
        assert(r == info_1_of(data));
        assert(r.sig_output_vectors@ =~= seq![data[36], data[37], data[38], data[39]]);
        assert forall|k: int| 0 <= k < 4 implies #[trigger] r.sig_output_vectors[k] == data[36 + k] by {
            assert(k == 0 || k == 1 || k == 2 || k == 3);
        }
    }
}

proof fn lemma_low_bytes(data: Seq<u8>, at: int)
    ensures
        le32(data, at) % 256 == data[at],
        (le32(data, at) / 256) % 256 == data[at + 1],
{
    let (a, b, c, d) = (data[at] as int, data[at + 1] as int, data[at + 2] as int, data[at + 3] as int);
    let w = a + 0x100 * (b + 0x100 * (c + 0x100 * d));
    lemma_number(data, at);
    assert(w % 256 == a && (w / 256) % 256 == b);
}

proof fn lemma_halves(data: Seq<u8>, at: int)
    ensures
        le32(data, at) % 65536 == data[at] + 0x100 * data[at + 1],
        le32(data, at) / 65536 == data[at + 2] + 0x100 * data[at + 3],
{
}

/// What the later kinds of shaders have there.
#[verifier::spinoff_prover]
#[verifier::rlimit(40)]
pub proof fn law_mesh_stage_layout(data: Seq<u8>, at: int)
    ensures
        ({
            let mesh = stage_of(data, at, PSVShaderKind::Mesh);
            &&& mesh is Mesh
            &&& mesh->group_shared_bytes_used == stored(data, at)
            &&& mesh->group_shared_bytes_dependent_on_view_id == stored(data, at + 4)
            &&& mesh->Mesh_payload_size_in_bytes == stored(data, at + 8)
            &&& mesh->max_output_vertices == data[at + 12] + 0x100 * data[at + 13]
            &&& mesh->max_output_primitives == data[at + 14] + 0x100 * data[at + 15]
        }),
        ({
            let amplification = stage_of(data, at, PSVShaderKind::Amplification);
            &&& amplification is Amplification
            &&& amplification->Amplification_payload_size_in_bytes == stored(data, at)
        }),
        stage_of(data, at, PSVShaderKind::Compute) is Compute,
{
    lemma_number(data, at);
    lemma_number(data, at + 4);
    lemma_number(data, at + 8);
    lemma_halves(data, at + 12);
}

/// What each kind of shader has in the four words of its stage.
#[verifier::spinoff_prover]
#[verifier::rlimit(40)]
pub proof fn law_stage_layout(data: Seq<u8>, at: int)
    ensures
        stage_of(data, at, PSVShaderKind::Vertex) == (ShaderStageInfo::Vertex { output_position_present: data[at] != 0 }),
        ({
            let hull = stage_of(data, at, PSVShaderKind::Hull);
            &&& hull is Hull
            &&& hull->Hull_input_control_point_count == stored(data, at)
            &&& hull->output_control_point_count == stored(data, at + 4)
            &&& hull->Hull_tessellator_domain == stored(data, at + 8)
            &&& hull->tessellator_output_primitive == stored(data, at + 12)
        }),
        ({
            let domain = stage_of(data, at, PSVShaderKind::Domain);
            &&& domain is Domain
            &&& domain->Domain_input_control_point_count == stored(data, at)
            &&& domain->Domain_output_position_present == (data[at + 4] != 0)
            &&& domain->Domain_tessellator_domain == stored(data, at + 8)
        }),
        ({
            let geometry = stage_of(data, at, PSVShaderKind::Geometry);
            &&& geometry is Geometry
            &&& geometry->input_primitive == stored(data, at)
            &&& geometry->output_topology == stored(data, at + 4)
            &&& geometry->output_stream_mask == stored(data, at + 8)
            &&& geometry->Geometry_output_position_present == (data[at + 12] != 0)
        }),
        stage_of(data, at, PSVShaderKind::Pixel) == (ShaderStageInfo::Pixel {
            depth_output: data[at] != 0,
            sample_frequency: data[at + 1] != 0,
        }),
{
    lemma_low_bytes(data, at);
    lemma_low_bytes(data, at + 4);
    lemma_low_bytes(data, at + 12);
    lemma_number(data, at);
    lemma_number(data, at + 4);
    lemma_number(data, at + 8);
    lemma_number(data, at + 12);
}

/// A resource binding of a PSV0 chunk: words for its type, space, lower and upper bound, and in the longer form its kind
/// and flags. A signature element: the words of its name and its indices, then a byte each.
pub proof fn law_validation_records_layout(data: Seq<u8>, at: int, size: u32)
    ensures
        resource_of(data, at, size).res_type == stored(data, at),
        resource_of(data, at, size).space == stored(data, at + 4),
        resource_of(data, at, size).lower_bound == stored(data, at + 8),
        resource_of(data, at, size).upper_bound == stored(data, at + 12),
        size >= 24 ==> resource_of(data, at, size).res_kind is Some && resource_of(data, at, size).res_kind->0 == stored(
            data,
            at + 16,
        ),
        size >= 24 ==> resource_of(data, at, size).res_flags is Some && resource_of(data, at, size).res_flags->0 == stored(
            data,
            at + 20,
        ),
        size < 24 ==> resource_of(data, at, size).res_kind is None && resource_of(data, at, size).res_flags is None,
        element_of(data, at).semantic_name == stored(data, at),
        element_of(data, at).semantic_indexes == stored(data, at + 4),
        element_of(data, at).rows == data[at + 8],
        element_of(data, at).start_row == data[at + 9],
        element_of(data, at).cols_and_start == data[at + 10],
        element_of(data, at).semantic_kind == data[at + 11],
        element_of(data, at).component_type == data[at + 12],
        element_of(data, at).interpolation_mode == data[at + 13],
        element_of(data, at).dynamic_mask_and_stream == data[at + 14],
        element_of(data, at).reserved == data[at + 15],
{
}

/// What the kinds of shaders are stored as.
pub proof fn law_shader_kind_numbers(v: u8)
    ensures
        PSVShaderKind::of(v) is Pixel <==> v == 0,
        PSVShaderKind::of(v) is Vertex <==> v == 1,
        PSVShaderKind::of(v) is Geometry <==> v == 2,
        PSVShaderKind::of(v) is Hull <==> v == 3,
        PSVShaderKind::of(v) is Domain <==> v == 4,
        PSVShaderKind::of(v) is Compute <==> v == 5,
        PSVShaderKind::of(v) is Library <==> v == 6,
        PSVShaderKind::of(v) is RayGeneration <==> v == 7,
        PSVShaderKind::of(v) is Intersection <==> v == 8,
        PSVShaderKind::of(v) is AnyHit <==> v == 9,
        PSVShaderKind::of(v) is ClosestHit <==> v == 10,
        PSVShaderKind::of(v) is Miss <==> v == 11,
        PSVShaderKind::of(v) is Callable <==> v == 12,
        PSVShaderKind::of(v) is Mesh <==> v == 13,
        PSVShaderKind::of(v) is Amplification <==> v == 14,
        PSVShaderKind::of(v) is Node <==> v == 15,
{
}

/// What the types of parts are stored as.
pub proof fn law_part_type_numbers(v: u32)
    ensures
        PartType::of(v) == Some(PartType::Invalid) <==> v == 0,
        PartType::of(v) == Some(PartType::StringBuffer) <==> v == 1,
        PartType::of(v) == Some(PartType::IndexArrays) <==> v == 2,
        PartType::of(v) == Some(PartType::ResourceTable) <==> v == 3,
        PartType::of(v) == Some(PartType::FunctionTable) <==> v == 4,
        PartType::of(v) == Some(PartType::RawBytes) <==> v == 5,
        PartType::of(v) == Some(PartType::SubobjectTable) <==> v == 6,
        PartType::of(v) == Some(PartType::NodeIDTable) <==> v == 7,
        PartType::of(v) == Some(PartType::NodeShaderIOAttribTable) <==> v == 8,
        PartType::of(v) == Some(PartType::NodeShaderFuncAttribTable) <==> v == 9,
        PartType::of(v) == Some(PartType::IONodeTable) <==> v == 10,
        PartType::of(v) == Some(PartType::NodeShaderInfoTable) <==> v == 11,
{
}

/// What the types of bound resources are stored as.
pub proof fn law_resource_input_type_numbers(v: u32)
    ensures
        ResourceInputType::of(v) == Some(ResourceInputType::CBuffer) <==> v == 0,
        ResourceInputType::of(v) == Some(ResourceInputType::TBuffer) <==> v == 1,
        ResourceInputType::of(v) == Some(ResourceInputType::Texture) <==> v == 2,
        ResourceInputType::of(v) == Some(ResourceInputType::Sampler) <==> v == 3,
        ResourceInputType::of(v) == Some(ResourceInputType::UavRwTyped) <==> v == 4,
        ResourceInputType::of(v) == Some(ResourceInputType::Structured) <==> v == 5,
        ResourceInputType::of(v) == Some(ResourceInputType::UavRwStructured) <==> v == 6,
        ResourceInputType::of(v) == Some(ResourceInputType::ByteAddress) <==> v == 7,
        ResourceInputType::of(v) == Some(ResourceInputType::UavRwByteAddress) <==> v == 8,
        ResourceInputType::of(v) == Some(ResourceInputType::UavAppendStructured) <==> v == 9,
        ResourceInputType::of(v) == Some(ResourceInputType::UavConsumeStructured) <==> v == 10,
        ResourceInputType::of(v) == Some(ResourceInputType::UavRwStructuredWithCounter) <==> v == 11,
{
}

/// What the dimensions of bound resources are stored as.
pub proof fn law_resource_dimension_numbers(v: u32)
    ensures
        ResourceDimension::of(v) == Some(ResourceDimension::Buffer) <==> v == 1,
        ResourceDimension::of(v) == Some(ResourceDimension::Texture1D) <==> v == 2,
        ResourceDimension::of(v) == Some(ResourceDimension::Texture2D) <==> v == 3,
        ResourceDimension::of(v) == Some(ResourceDimension::Texture2DMS) <==> v == 4,
        ResourceDimension::of(v) == Some(ResourceDimension::Texture3D) <==> v == 5,
        ResourceDimension::of(v) == Some(ResourceDimension::TextureCube) <==> v == 6,
        ResourceDimension::of(v) == Some(ResourceDimension::Texture1DArray) <==> v == 7,
        ResourceDimension::of(v) == Some(ResourceDimension::Texture2DArray) <==> v == 8,
        ResourceDimension::of(v) == Some(ResourceDimension::Texture2DMSArray) <==> v == 9,
        ResourceDimension::of(v) == Some(ResourceDimension::TextureCubeArray) <==> v == 10,
{
}

/// What the component types of a signature are stored as.
pub proof fn law_component_type_numbers(v: u32)
    ensures
        ComponentType::of(v) == Some(ComponentType::Unknown) <==> v == 0,
        ComponentType::of(v) == Some(ComponentType::UInt) <==> v == 1,
        ComponentType::of(v) == Some(ComponentType::Int) <==> v == 2,
        ComponentType::of(v) == Some(ComponentType::Float) <==> v == 3,
        ComponentType::of(v) == Some(ComponentType::UInt16) <==> v == 4,
        ComponentType::of(v) == Some(ComponentType::Int16) <==> v == 5,
        ComponentType::of(v) == Some(ComponentType::Float16) <==> v == 6,
        ComponentType::of(v) == Some(ComponentType::UInt64) <==> v == 7,
        ComponentType::of(v) == Some(ComponentType::Int64) <==> v == 8,
        ComponentType::of(v) == Some(ComponentType::Float64) <==> v == 9,
{
}

/// The features are the bits of the flags, the first of them the lowest, and none is left out in between.
pub proof fn law_feature_bits(at: int)
    requires
        0 <= at < 27,
    ensures
        flag_bit(0) == 1,
        flag_bit(at + 1) == 2 * flag_bit(at),
{
}

/// How the kinds of shaders are called.
pub proof fn law_shader_kind_names(k: PSVShaderKind)
    ensures
        k is Pixel ==> k.name_text() == "PS"@,
        k is Vertex ==> k.name_text() == "VS"@,
        k is Geometry ==> k.name_text() == "GS"@,
        k is Hull ==> k.name_text() == "HS"@,
        k is Domain ==> k.name_text() == "DS"@,
        k is Compute ==> k.name_text() == "CS"@,
        k is Library ==> k.name_text() == "Lib"@,
        k is RayGeneration ==> k.name_text() == "RayGen"@,
        k is Intersection ==> k.name_text() == "Intersection"@,
        k is AnyHit ==> k.name_text() == "AnyHit"@,
        k is ClosestHit ==> k.name_text() == "ClosestHit"@,
        k is Miss ==> k.name_text() == "Miss"@,
        k is Callable ==> k.name_text() == "Callable"@,
        k is Mesh ==> k.name_text() == "MS"@,
        k is Amplification ==> k.name_text() == "AS"@,
        k is Node ==> k.name_text() == "Node"@,
        k is Invalid ==> k.name_text() == "Invalid"@,
{
}

/// How the types of parts are called.
pub proof fn law_part_type_names(t: PartType)
    ensures
        t is Invalid ==> t.name_text() == "Invalid"@,
        t is StringBuffer ==> t.name_text() == "StringBuffer"@,
        t is IndexArrays ==> t.name_text() == "IndexArrays"@,
        t is ResourceTable ==> t.name_text() == "ResourceTable"@,
        t is FunctionTable ==> t.name_text() == "FunctionTable"@,
        t is RawBytes ==> t.name_text() == "RawBytes"@,
        t is SubobjectTable ==> t.name_text() == "SubobjectTable"@,
        t is NodeIDTable ==> t.name_text() == "NodeIDTable"@,
        t is NodeShaderIOAttribTable ==> t.name_text() == "NodeShaderIOAttribTable"@,
        t is NodeShaderFuncAttribTable ==> t.name_text() == "NodeShaderFuncAttribTable"@,
        t is IONodeTable ==> t.name_text() == "IONodeTable"@,
        t is NodeShaderInfoTable ==> t.name_text() == "NodeShaderInfoTable"@,
{
}

/// How the types of bound resources are called.
pub proof fn law_resource_input_type_names(t: ResourceInputType)
    ensures
        t is CBuffer ==> t.name_text() == "cbuffer"@,
        t is TBuffer ==> t.name_text() == "tbuffer"@,
        t is Texture ==> t.name_text() == "texture"@,
        t is Sampler ==> t.name_text() == "sampler"@,
        t is UavRwTyped ==> t.name_text() == "uav_rwtyped"@,
        t is Structured ==> t.name_text() == "structured"@,
        t is UavRwStructured ==> t.name_text() == "uav_rwstructured"@,
        t is ByteAddress ==> t.name_text() == "byteaddress"@,
        t is UavRwByteAddress ==> t.name_text() == "uav_rwbyteaddress"@,
        t is UavAppendStructured ==> t.name_text() == "uav_append_structured"@,
        t is UavConsumeStructured ==> t.name_text() == "uav_consume_structured"@,
        t is UavRwStructuredWithCounter ==> t.name_text() == "uav_rwstructured_with_counter"@,
{
}

/// How the dimensions of bound resources are called.
pub proof fn law_resource_dimension_names(d: ResourceDimension)
    ensures
        d is Buffer ==> d.name_text() == "buf"@,
        d is Texture1D ==> d.name_text() == "1d"@,
        d is Texture2D ==> d.name_text() == "2d"@,
        d is Texture2DMS ==> d.name_text() == "2dMS"@,
        d is Texture3D ==> d.name_text() == "3d"@,
        d is TextureCube ==> d.name_text() == "cube"@,
        d is Texture1DArray ==> d.name_text() == "1darray"@,
        d is Texture2DArray ==> d.name_text() == "2darray"@,
        d is Texture2DMSArray ==> d.name_text() == "2dMSarray"@,
        d is TextureCubeArray ==> d.name_text() == "cubearray"@,
{
}

/// How the visibilities are called.
pub proof fn law_visibility_names(v: ShaderVisibility)
    ensures
        v is All ==> v.name_text() == "ALL"@,
        v is Vertex ==> v.name_text() == "VS"@,
        v is Hull ==> v.name_text() == "HS"@,
        v is Domain ==> v.name_text() == "DS"@,
        v is Geometry ==> v.name_text() == "GS"@,
        v is Pixel ==> v.name_text() == "PS"@,
{
}

/// How the range types are called.
pub proof fn law_range_type_names(t: DescriptorRangeType)
    ensures
        t is Srv ==> t.name_text() == "SRV"@,
        t is Uav ==> t.name_text() == "UAV"@,
        t is Cbv ==> t.name_text() == "CBV"@,
        t is Sampler ==> t.name_text() == "SAMPLER"@,
{
}

/// How the component types of a signature are called.
pub proof fn law_component_type_names(t: ComponentType)
    ensures
        t is Unknown ==> t.name_text() == "unknown"@,
        t is UInt ==> t.name_text() == "uint"@,
        t is Int ==> t.name_text() == "int"@,
        t is Float ==> t.name_text() == "float"@,
        t is UInt16 ==> t.name_text() == "uint16"@,
        t is Int16 ==> t.name_text() == "int16"@,
        t is Float16 ==> t.name_text() == "float16"@,
        t is UInt64 ==> t.name_text() == "uint64"@,
        t is Int64 ==> t.name_text() == "int64"@,
        t is Float64 ==> t.name_text() == "float64"@,
{
}

/// How the precisions are called.
pub proof fn law_precision_names(p: MinPrecision)
    ensures
        p is Default ==> p.text_spec() == ""@,
        p is Float16 ==> p.text_spec() == " [min16f]"@,
        p is Float2_8 ==> p.text_spec() == " [min2_8f]"@,
        p is Reserved ==> p.text_spec() == " [reserved]"@,
        p is SInt16 ==> p.text_spec() == " [min16i]"@,
        p is UInt16 ==> p.text_spec() == " [min16u]"@,
        p is Any16 ==> p.text_spec() == " [any16]"@,
        p is Any10 ==> p.text_spec() == " [any10]"@,
{
}

/// How the features are called, by the number of their bit.
pub proof fn law_feature_names(at: int)
    ensures
        at == 0 ==> flag_name(at) == "Doubles"@,
        at == 1 ==> flag_name(at) == "CS+Raw/StructuredBuffers"@,
        at == 2 ==> flag_name(at) == "UAVsAtEveryStage"@,
        at == 3 ==> flag_name(at) == "64UAVs"@,
        at == 4 ==> flag_name(at) == "MinimumPrecision"@,
        at == 5 ==> flag_name(at) == "11.1DoubleExtensions"@,
        at == 6 ==> flag_name(at) == "11.1ShaderExtensions"@,
        at == 7 ==> flag_name(at) == "Level9ComparisonFiltering"@,
        at == 8 ==> flag_name(at) == "TiledResources"@,
        at == 9 ==> flag_name(at) == "StencilRef"@,
        at == 10 ==> flag_name(at) == "InnerCoverage"@,
        at == 11 ==> flag_name(at) == "TypedUAVLoadAdditionalFormats"@,
        at == 12 ==> flag_name(at) == "ROVs"@,
        at == 13 ==> flag_name(at) == "VPAndRTArrayIndexFromAnyShader"@,
        at == 14 ==> flag_name(at) == "WaveOps"@,
        at == 15 ==> flag_name(at) == "Int64Ops"@,
        at == 16 ==> flag_name(at) == "ViewID"@,
        at == 17 ==> flag_name(at) == "Barycentrics"@,
        at == 18 ==> flag_name(at) == "NativeLowPrecision"@,
        at == 19 ==> flag_name(at) == "ShadingRate"@,
        at == 20 ==> flag_name(at) == "RaytracingTier1_1"@,
        at == 21 ==> flag_name(at) == "SamplerFeedback"@,
        at == 22 ==> flag_name(at) == "AtomicInt64OnTypedResource"@,
        at == 23 ==> flag_name(at) == "AtomicInt64OnGroupShared"@,
        at == 24 ==> flag_name(at) == "DerivativesInMeshAndAmpShaders"@,
        at == 25 ==> flag_name(at) == "ResourceDescriptorHeapIndexing"@,
        at == 26 ==> flag_name(at) == "SamplerDescriptorHeapIndexing"@,
        at == 27 ==> flag_name(at) == "AtomicInt64OnDescriptorHeap"@,
{
}

/// No container is passed over: wherever one stands, from the start of the search on, one that was found stands there or
/// reaches over the place.
pub proof fn law_no_container_is_missed(data: Seq<u8>, at: int, p: int)
    requires
        0 <= at <= p < data.len(),
        container_at(data, p) is Some,
    ensures
        exists|i: int|
            0 <= i < containers_from(data, at).len() && (#[trigger] containers_from(data, at)[i]).offset <= p
                < containers_from(data, at)[i].offset + containers_from(data, at)[i].size,
    decreases p - at,
{
    let list = containers_from(data, at);
    match container_at(data, at) {
        Some(held) => {
            assert(list[0] == held);
            if p >= at + held.size {
                law_no_container_is_missed(data, at + held.size, p);
                let rest = containers_from(data, at + held.size);
                let i = choose|i: int|
                    0 <= i < rest.len() && (#[trigger] rest[i]).offset <= p < rest[i].offset + rest[i].size;
                assert(list[i + 1] == rest[i]);
            }
        },
        None => {
            law_no_container_is_missed(data, at + 1, p);
        },
    }
}

/// The characters of a tag.
pub open spec fn tagged_as(tag: Seq<u8>, name: Seq<char>) -> bool {
    tag.len() == 4 && name.len() == 4 && forall|i: int| 0 <= i < 4 ==> #[trigger] tag[i] as int == name[i] as int
}

/// What the tags of chunks stand for.
pub proof fn law_tags_name_chunks(tag: Seq<u8>)
    ensures
        tagged_as(tag, "SHEX"@) ==> kind_of(tag) is Shader,
        tagged_as(tag, "SHDR"@) ==> kind_of(tag) is Shader,
        tagged_as(tag, "RDEF"@) ==> kind_of(tag) is Rdef,
        tagged_as(tag, "ISGN"@) ==> kind_of(tag) is InputSignature,
        tagged_as(tag, "ISG1"@) ==> kind_of(tag) is InputSignature,
        tagged_as(tag, "OSGN"@) ==> kind_of(tag) is OutputSignature,
        tagged_as(tag, "OSG1"@) ==> kind_of(tag) is OutputSignature,
        tagged_as(tag, "OSG5"@) ==> kind_of(tag) is OutputSignature,
        tagged_as(tag, "PCSG"@) ==> kind_of(tag) is PatchConstantSignature,
        tagged_as(tag, "PSG1"@) ==> kind_of(tag) is PatchConstantSignature,
        tagged_as(tag, "STAT"@) ==> kind_of(tag) is Stats,
        tagged_as(tag, "RTS0"@) ==> kind_of(tag) is RootSignature,
        tagged_as(tag, "SFI0"@) ==> kind_of(tag) is FeatureInfo,
        tagged_as(tag, "ILDN"@) ==> kind_of(tag) is DebugName,
        tagged_as(tag, "DXIL"@) ==> kind_of(tag) is Dxil,
        tagged_as(tag, "PSV0"@) ==> kind_of(tag) is PipelineStateValidation,
        tagged_as(tag, "RDAT"@) ==> kind_of(tag) is RuntimeData,
        tagged_as(tag, "ILDB"@) ==> kind_of(tag) is DebugData,
        tagged_as(tag, "PRIV"@) ==> kind_of(tag) is PrivateData,
        tagged_as(tag, "LIBH"@) ==> kind_of(tag) is LibraryHeader,
        tagged_as(tag, "LIBF"@) ==> kind_of(tag) is LibraryFunction,
        tagged_as(tag, "LFS0"@) ==> kind_of(tag) is LibraryFunctionSignatures,
{
    reveal_strlit("SHEX");
    reveal_strlit("SHDR");
    reveal_strlit("RDEF");
    reveal_strlit("ISGN");
    reveal_strlit("ISG1");
    reveal_strlit("OSGN");
    reveal_strlit("OSG1");
    reveal_strlit("OSG5");
    reveal_strlit("PCSG");
    reveal_strlit("PSG1");
    reveal_strlit("STAT");
    reveal_strlit("RTS0");
    reveal_strlit("SFI0");
    reveal_strlit("ILDN");
    reveal_strlit("DXIL");
    reveal_strlit("PSV0");
    reveal_strlit("RDAT");
    reveal_strlit("ILDB");
    reveal_strlit("PRIV");
    reveal_strlit("LIBH");
    reveal_strlit("LIBF");
    reveal_strlit("LFS0");
    if tag.len() == 4 {
        assert(tag[0] as int >= 0 && tag[1] as int >= 0 && tag[2] as int >= 0 && tag[3] as int >= 0);
    }
}

} // verus!
