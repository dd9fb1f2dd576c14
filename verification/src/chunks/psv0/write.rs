//! PSV0 writer.
use super::parse::{
    bindings_at, dependencies_at, element_of, element_step, elements_at, info_1_of, input_patch_count, kind_of,
    optional_info_1, optional_info_2, optional_word, patch_output_count, psv_of, resource_of, resource_step,
    resources_at, runs_at, sections_at, signatures_at, stage_of, table_counts, tables_at, view_mask_counts,
    view_patch_count, words_at,
};
use super::types::{
    run_models, PSVResourceBindInfo, PSVRuntimeInfo1, PSVShaderKind, PSVSignatureElement, PipelineStateValidation,
    PsvModel, SectionsModel, ShaderStageInfo,
};
use crate::bytes::{
    bytes16, flat, le32, lemma_flat_len, lemma_read_back16, lemma_stands_byte, lemma_stands_split, lemma_stands_words,
    push16, push_all, push_words, push_zeros, stands_at, zeros,
};
use vstd::prelude::*;

verus! {

/// One for yes, nought for no.
pub open spec fn flag_word(b: bool) -> u32 {
    if b {
        1
    } else {
        0
    }
}

/// The four words that a kind of shader has of its own. Those of an unknown kind are kept as bytes.
pub open spec fn stage_bytes(info: ShaderStageInfo) -> Seq<u8> {
    match info {
        ShaderStageInfo::Vertex { output_position_present } => flat(
            seq![flag_word(output_position_present), 0u32, 0u32, 0u32],
        ),
        ShaderStageInfo::Hull {
            input_control_point_count,
            output_control_point_count,
            tessellator_domain,
            tessellator_output_primitive,
        } => flat(
            seq![
                input_control_point_count,
                output_control_point_count,
                tessellator_domain,
                tessellator_output_primitive,
            ],
        ),
        ShaderStageInfo::Domain { input_control_point_count, output_position_present, tessellator_domain } => flat(
            seq![input_control_point_count, flag_word(output_position_present), tessellator_domain, 0u32],
        ),
        ShaderStageInfo::Geometry { input_primitive, output_topology, output_stream_mask, output_position_present } => flat(
            seq![input_primitive, output_topology, output_stream_mask, flag_word(output_position_present)],
        ),
        ShaderStageInfo::Pixel { depth_output, sample_frequency } => flat(
            seq![(flag_word(depth_output) + 256 * flag_word(sample_frequency)) as u32, 0u32, 0u32, 0u32],
        ),
        ShaderStageInfo::Mesh {
            group_shared_bytes_used,
            group_shared_bytes_dependent_on_view_id,
            payload_size_in_bytes,
            max_output_vertices,
            max_output_primitives,
        } => flat(
            seq![
                group_shared_bytes_used,
                group_shared_bytes_dependent_on_view_id,
                payload_size_in_bytes,
                (max_output_vertices + 65536 * max_output_primitives) as u32,
            ],
        ),
        ShaderStageInfo::Amplification { payload_size_in_bytes } => flat(
            seq![payload_size_in_bytes, 0u32, 0u32, 0u32],
        ),
        ShaderStageInfo::Compute => flat(seq![0u32, 0u32, 0u32, 0u32]),
        ShaderStageInfo::Other { raw } => raw@,
    }
}

/// The fields that version one adds.
pub open spec fn info_1_bytes(ri: PSVRuntimeInfo1) -> Seq<u8> {
    seq![ri.shader_stage, ri.uses_view_id] + bytes16(ri.max_vert_or_patch_prim) + seq![
        ri.sig_input_elements,
        ri.sig_output_elements,
        ri.sig_patch_const_or_prim_elements,
        ri.sig_input_vectors,
        ri.sig_output_vectors@[0],
        ri.sig_output_vectors@[1],
        ri.sig_output_vectors@[2],
        ri.sig_output_vectors@[3],
    ]
}

/// The fields that version one adds, where there are any.
pub open spec fn optional_info_1_bytes(info: Option<PSVRuntimeInfo1>) -> Seq<u8> {
    match info {
        Some(ri) => info_1_bytes(ri),
        None => Seq::empty(),
    }
}

/// The fields that later versions add, where there are any.
pub open spec fn later_words(p: PsvModel) -> Seq<u32> {
    (match p.runtime_info_2 {
        Some(ri) => seq![ri.num_threads_x, ri.num_threads_y, ri.num_threads_z],
        None => Seq::<u32>::empty(),
    }) + (match p.entry_function_name {
        Some(v) => seq![v],
        None => Seq::<u32>::empty(),
    }) + (match p.num_bytes_group_shared_memory {
        Some(v) => seq![v],
        None => Seq::<u32>::empty(),
    })
}

/// The runtime info as far as it is known.
pub open spec fn info_bytes(p: PsvModel) -> Seq<u8> {
    stage_bytes(p.stage_info) + flat(seq![p.min_wave_lane_count, p.max_wave_lane_count]) + optional_info_1_bytes(
        p.runtime_info_1,
    ) + flat(later_words(p))
}

/// Bytes filled up with zeros to a length, where they are shorter.
pub open spec fn filled(s: Seq<u8>, len: nat) -> Seq<u8> {
    s + (if s.len() < len {
        zeros((len - s.len()) as nat)
    } else {
        Seq::<u8>::empty()
    })
}

/// The words of a resource binding.
pub open spec fn resource_words(r: PSVResourceBindInfo) -> Seq<u32> {
    seq![r.res_type, r.space, r.lower_bound, r.upper_bound] + (match r.res_kind {
        Some(v) => seq![v],
        None => Seq::<u32>::empty(),
    }) + (match r.res_flags {
        Some(v) => seq![v],
        None => Seq::<u32>::empty(),
    })
}

/// The first `n` resource bindings, each filled up to the stated size.
pub open spec fn resources_bytes(resources: Seq<PSVResourceBindInfo>, size: u32, n: nat) -> Seq<u8>
    decreases n,
{
    if n == 0 {
        Seq::empty()
    } else {
        resources_bytes(resources, size, (n - 1) as nat) + filled(flat(resource_words(resources[n - 1])), size as nat)
    }
}

/// The resource bindings with their count and, where there are any, their size.
pub open spec fn bindings_bytes(p: PsvModel) -> Seq<u8> {
    if p.resources.len() == 0 {
        flat(seq![0u32])
    } else {
        flat(seq![p.resources.len() as u32, p.resource_bind_info_size]) + resources_bytes(
            p.resources,
            p.resource_bind_info_size,
            p.resources.len(),
        )
    }
}

/// A signature element.
pub open spec fn element_bytes(e: PSVSignatureElement) -> Seq<u8> {
    flat(seq![e.semantic_name, e.semantic_indexes]) + seq![
        e.rows,
        e.start_row,
        e.cols_and_start,
        e.semantic_kind,
        e.component_type,
        e.interpolation_mode,
        e.dynamic_mask_and_stream,
        e.reserved,
    ]
}

/// The first `n` signature elements, each filled up to the stated size.
pub open spec fn elements_bytes(elements: Seq<PSVSignatureElement>, size: u32, n: nat) -> Seq<u8>
    decreases n,
{
    if n == 0 {
        Seq::empty()
    } else {
        elements_bytes(elements, size, (n - 1) as nat) + filled(element_bytes(elements[n - 1]), size as nat)
    }
}

/// The two tables at the start of the sections.
pub open spec fn tables_bytes(s: SectionsModel) -> Seq<u8> {
    flat(seq![s.string_table.len() as u32]) + s.string_table + (flat(seq![s.semantic_index_table.len() as u32]) + flat(
        s.semantic_index_table,
    ))
}

/// The signature elements with, where there are any, their size.
pub open spec fn signatures_bytes(s: SectionsModel) -> Seq<u8> {
    if s.sig_input_elements.len() + s.sig_output_elements.len() + s.sig_patch_const_or_prim_elements.len() == 0 {
        Seq::empty()
    } else {
        flat(seq![s.sig_element_size]) + elements_bytes(
            s.sig_input_elements,
            s.sig_element_size,
            s.sig_input_elements.len(),
        ) + elements_bytes(s.sig_output_elements, s.sig_element_size, s.sig_output_elements.len()) + elements_bytes(
            s.sig_patch_const_or_prim_elements,
            s.sig_element_size,
            s.sig_patch_const_or_prim_elements.len(),
        )
    }
}

/// The first `n` runs of words.
pub open spec fn runs_bytes(runs: Seq<Seq<u32>>, n: nat) -> Seq<u8>
    decreases n,
{
    if n == 0 {
        Seq::empty()
    } else {
        runs_bytes(runs, (n - 1) as nat) + flat(runs[n - 1])
    }
}

/// The view masks, where the shader uses the view.
pub open spec fn views_bytes(s: SectionsModel, uses_view_id: u8) -> Seq<u8> {
    if uses_view_id != 0 {
        runs_bytes(s.view_id_output_masks, s.view_id_output_masks.len()) + flat(s.view_id_pc_or_prim_output_mask)
    } else {
        Seq::empty()
    }
}

/// The masks and dependency tables.
pub open spec fn dependencies_bytes(s: SectionsModel, uses_view_id: u8) -> Seq<u8> {
    views_bytes(s, uses_view_id) + runs_bytes(s.input_to_output_tables, s.input_to_output_tables.len()) + flat(
        s.input_to_pc_output_table,
    ) + flat(s.pc_input_to_output_table)
}

/// The sections from version one on.
pub open spec fn sections_bytes(s: SectionsModel, info: Option<PSVRuntimeInfo1>) -> Seq<u8> {
    match info {
        Some(ri) => tables_bytes(s) + signatures_bytes(s) + dependencies_bytes(s, ri.uses_view_id),
        None => Seq::empty(),
    }
}

/// The payload: the size of the runtime info, the info filled up to it, the bindings and the sections.
pub open spec fn psv_bytes(p: PsvModel) -> Seq<u8> {
    flat(seq![p.info_size]) + filled(info_bytes(p), p.info_size as nat) + bindings_bytes(p) + sections_bytes(
        p.sections,
        p.runtime_info_1,
    )
}

fn push_filled(out: &mut Vec<u8>, part: Vec<u8>, len: u32)
    ensures
        final(out)@ == old(out)@ + filled(part@, len as nat),
{
    let ghost start = out@;
    push_all(out, part.as_slice());
    let held: u64 = part.len() as u64;
    if held < len as u64 {
        push_zeros(out, (len as u64 - held) as usize);
    }
    proof {
        assert(out@ =~= start + filled(part@, len as nat));
    }
}

fn flag(b: bool) -> (r: u32)
    ensures
        r == flag_word(b),
{
    if b {
        1
    } else {
        0
    }
}

fn push_four(out: &mut Vec<u8>, a: u32, b: u32, c: u32, d: u32)
    ensures
        final(out)@ == old(out)@ + flat(seq![a, b, c, d]),
{
    let words: [u32; 4] = [a, b, c, d];
    push_words(out, &words);
    proof {
        assert(words@ =~= seq![a, b, c, d]);
    }
}

fn write_stage_info(out: &mut Vec<u8>, info: &ShaderStageInfo)
    ensures
        final(out)@ == old(out)@ + stage_bytes(*info),
{
    match info {
        ShaderStageInfo::Vertex { output_position_present } => push_four(out, flag(*output_position_present), 0, 0, 0),
        ShaderStageInfo::Hull {
            input_control_point_count,
            output_control_point_count,
            tessellator_domain,
            tessellator_output_primitive,
        } => push_four(
            out,
            *input_control_point_count,
            *output_control_point_count,
            *tessellator_domain,
            *tessellator_output_primitive,
        ),
        ShaderStageInfo::Domain { input_control_point_count, output_position_present, tessellator_domain } => push_four(
            out,
            *input_control_point_count,
            flag(*output_position_present),
            *tessellator_domain,
            0,
        ),
        ShaderStageInfo::Geometry { input_primitive, output_topology, output_stream_mask, output_position_present } => push_four(
            out,
            *input_primitive,
            *output_topology,
            *output_stream_mask,
            flag(*output_position_present),
        ),
        ShaderStageInfo::Pixel { depth_output, sample_frequency } => push_four(
            out,
            flag(*depth_output) + 256 * flag(*sample_frequency),
            0,
            0,
            0,
        ),
        ShaderStageInfo::Mesh {
            group_shared_bytes_used,
            group_shared_bytes_dependent_on_view_id,
            payload_size_in_bytes,
            max_output_vertices,
            max_output_primitives,
        } => push_four(
            out,
            *group_shared_bytes_used,
            *group_shared_bytes_dependent_on_view_id,
            *payload_size_in_bytes,
            *max_output_vertices as u32 + 65536 * (*max_output_primitives as u32),
        ),
        ShaderStageInfo::Amplification { payload_size_in_bytes } => push_four(out, *payload_size_in_bytes, 0, 0, 0),
        ShaderStageInfo::Compute => push_four(out, 0, 0, 0, 0),
        ShaderStageInfo::Other { raw } => push_all(out, raw),
    }
}

fn push_info_1(out: &mut Vec<u8>, ri: &PSVRuntimeInfo1)
    ensures
        final(out)@ == old(out)@ + info_1_bytes(*ri),
{
    let ghost start = out@;
    out.push(ri.shader_stage);
    out.push(ri.uses_view_id);
    push16(out, ri.max_vert_or_patch_prim);
    out.push(ri.sig_input_elements);
    out.push(ri.sig_output_elements);
    out.push(ri.sig_patch_const_or_prim_elements);
    out.push(ri.sig_input_vectors);
    out.push(ri.sig_output_vectors[0]);
    out.push(ri.sig_output_vectors[1]);
    out.push(ri.sig_output_vectors[2]);
    out.push(ri.sig_output_vectors[3]);
    proof {
        assert(out@ =~= start + info_1_bytes(*ri));
    }
}

fn write_info(psv: &PipelineStateValidation) -> (r: Vec<u8>)
    ensures
        r@ == info_bytes(psv@),
{
    let mut out: Vec<u8> = Vec::new();
    write_stage_info(&mut out, &psv.stage_info);
    let counts: [u32; 2] = [psv.min_wave_lane_count, psv.max_wave_lane_count];
    push_words(&mut out, &counts);
    proof {
        assert(counts@ =~= seq![psv.min_wave_lane_count, psv.max_wave_lane_count]);
    }
    if let Some(ri) = &psv.runtime_info_1 {
        push_info_1(&mut out, ri);
    }
    let mut words: Vec<u32> = Vec::new();
    if let Some(ri) = &psv.runtime_info_2 {
        words.push(ri.num_threads_x);
        words.push(ri.num_threads_y);
        words.push(ri.num_threads_z);
    }
    if let Some(v) = psv.entry_function_name {
        words.push(v);
    }
    if let Some(v) = psv.num_bytes_group_shared_memory {
        words.push(v);
    }
    push_words(&mut out, words.as_slice());
    proof {
        assert(words@ =~= later_words(psv@));
        assert(out@ =~= info_bytes(psv@));
    }
    out
}

fn write_resource(r: &PSVResourceBindInfo) -> (out: Vec<u8>)
    ensures
        out@ == flat(resource_words(*r)),
{
    let mut words: Vec<u32> = Vec::new();
    words.push(r.res_type);
    words.push(r.space);
    words.push(r.lower_bound);
    words.push(r.upper_bound);
    if let Some(v) = r.res_kind {
        words.push(v);
    }
    if let Some(v) = r.res_flags {
        words.push(v);
    }
    let mut out: Vec<u8> = Vec::new();
    push_words(&mut out, words.as_slice());
    proof {
        assert(words@ =~= resource_words(*r));
        assert(out@ =~= flat(resource_words(*r)));
    }
    out
}

fn push_bindings(out: &mut Vec<u8>, psv: &PipelineStateValidation)
    ensures
        final(out)@ == old(out)@ + bindings_bytes(psv@),
{
    let ghost start = out@;
    let count: usize = psv.resources.len();
    if count == 0 {
        let head: [u32; 1] = [0];
        push_words(out, &head);
        proof {
            assert(head@ =~= seq![0u32]);
        }
        return;
    }
    let size: u32 = psv.resource_bind_info_size;
    let head: [u32; 2] = [count as u32, size];
    push_words(out, &head);
    let ghost lead = flat(seq![count as u32, size]);
    let mut i: usize = 0;
    proof {
        assert(head@ =~= seq![count as u32, size]);
        assert(out@ =~= start + lead + resources_bytes(psv.resources@, size, 0));
    }
    while i < count
        invariant
            i <= count,
            count == psv.resources@.len(),
            out@ == start + lead + resources_bytes(psv.resources@, size, i as nat),
        decreases count - i,
    {
        let one = write_resource(&psv.resources[i]);
        push_filled(out, one, size);
        i = i + 1;
        proof {
            assert(out@ =~= start + lead + resources_bytes(psv.resources@, size, i as nat));
        }
    }
    proof {
        assert(out@ =~= start + bindings_bytes(psv@));
    }
}

fn write_sig_element(e: &PSVSignatureElement) -> (out: Vec<u8>)
    ensures
        out@ == element_bytes(*e),
{
    let mut out: Vec<u8> = Vec::new();
    let words: [u32; 2] = [e.semantic_name, e.semantic_indexes];
    push_words(&mut out, &words);
    out.push(e.rows);
    out.push(e.start_row);
    out.push(e.cols_and_start);
    out.push(e.semantic_kind);
    out.push(e.component_type);
    out.push(e.interpolation_mode);
    out.push(e.dynamic_mask_and_stream);
    out.push(e.reserved);
    proof {
        assert(words@ =~= seq![e.semantic_name, e.semantic_indexes]);
        assert(out@ =~= element_bytes(*e));
    }
    out
}

fn push_elements(out: &mut Vec<u8>, elements: &Vec<PSVSignatureElement>, size: u32)
    ensures
        final(out)@ == old(out)@ + elements_bytes(elements@, size, elements@.len()),
{
    let ghost start = out@;
    let mut i: usize = 0;
    proof {
        assert(out@ =~= start + elements_bytes(elements@, size, 0));
    }
    while i < elements.len()
        invariant
            i <= elements@.len(),
            out@ == start + elements_bytes(elements@, size, i as nat),
        decreases elements@.len() - i,
    {
        let one = write_sig_element(&elements[i]);
        push_filled(out, one, size);
        i = i + 1;
        proof {
            assert(out@ =~= start + elements_bytes(elements@, size, i as nat));
        }
    }
}

fn push_runs(out: &mut Vec<u8>, runs: &Vec<Vec<u32>>)
    ensures
        final(out)@ == old(out)@ + runs_bytes(run_models(runs@), runs@.len()),
{
    let ghost start = out@;
    let ghost all = run_models(runs@);
    let mut i: usize = 0;
    proof {
        assert(out@ =~= start + runs_bytes(all, 0));
    }
    while i < runs.len()
        invariant
            i <= runs@.len(),
            all == run_models(runs@),
            out@ == start + runs_bytes(all, i as nat),
        decreases runs@.len() - i,
    {
        push_words(out, runs[i].as_slice());
        i = i + 1;
        proof {
            assert(out@ =~= start + runs_bytes(all, i as nat));
        }
    }
}

fn push_tables(out: &mut Vec<u8>, psv: &PipelineStateValidation)
    ensures
        final(out)@ == old(out)@ + tables_bytes(psv@.sections),
{
    let ghost start = out@;
    let head: [u32; 1] = [psv.string_table.len() as u32];
    push_words(out, &head);
    push_all(out, psv.string_table.as_slice());
    let next: [u32; 1] = [psv.semantic_index_table.len() as u32];
    push_words(out, &next);
    push_words(out, psv.semantic_index_table.as_slice());
    proof {
        assert(head@ =~= seq![psv.string_table@.len() as u32]);
        assert(next@ =~= seq![psv.semantic_index_table@.len() as u32]);
        assert(out@ =~= start + tables_bytes(psv@.sections));
    }
}

fn push_signatures(out: &mut Vec<u8>, psv: &PipelineStateValidation)
    ensures
        final(out)@ == old(out)@ + signatures_bytes(psv@.sections),
{
    let ghost start = out@;
    if psv.sig_input_elements.len() == 0 && psv.sig_output_elements.len() == 0
        && psv.sig_patch_const_or_prim_elements.len() == 0 {
        proof {
            assert(out@ =~= start + signatures_bytes(psv@.sections));
        }
        return;
    }
    let size: u32 = psv.sig_element_size;
    let head: [u32; 1] = [size];
    push_words(out, &head);
    push_elements(out, &psv.sig_input_elements, size);
    push_elements(out, &psv.sig_output_elements, size);
    push_elements(out, &psv.sig_patch_const_or_prim_elements, size);
    proof {
        assert(head@ =~= seq![size]);
        assert(out@ =~= start + signatures_bytes(psv@.sections));
    }
}

fn push_dependencies(out: &mut Vec<u8>, psv: &PipelineStateValidation, uses_view_id: u8)
    ensures
        final(out)@ == old(out)@ + dependencies_bytes(psv@.sections, uses_view_id),
{
    let ghost start = out@;
    if uses_view_id != 0 {
        push_runs(out, &psv.view_id_output_masks);
        push_words(out, psv.view_id_pc_or_prim_output_mask.as_slice());
    }
    push_runs(out, &psv.input_to_output_tables);
    push_words(out, psv.input_to_pc_output_table.as_slice());
    push_words(out, psv.pc_input_to_output_table.as_slice());
    proof {
        assert(out@ =~= start + dependencies_bytes(psv@.sections, uses_view_id));
    }
}

/// Write a PSV0 chunk.
pub fn write_psv0(psv: &PipelineStateValidation) -> (r: Vec<u8>)
    ensures
        r@ == psv_bytes(psv@),
{
    let mut out: Vec<u8> = Vec::new();
    let head: [u32; 1] = [psv.info_size];
    push_words(&mut out, &head);
    let info = write_info(psv);
    push_filled(&mut out, info, psv.info_size);
    push_bindings(&mut out, psv);
    if let Some(ri) = &psv.runtime_info_1 {
        push_tables(&mut out, psv);
        push_signatures(&mut out, psv);
        push_dependencies(&mut out, psv, ri.uses_view_id);
    }
    proof {
        assert(head@ =~= seq![psv.info_size]);
        assert(out@ =~= psv_bytes(psv@));
    }
    out
}

/// The fields of a kind of shader are those of its kind.
pub open spec fn stage_fits(info: ShaderStageInfo, kind: PSVShaderKind) -> bool {
    match kind {
        PSVShaderKind::Vertex => info is Vertex,
        PSVShaderKind::Hull => info is Hull,
        PSVShaderKind::Domain => info is Domain,
        PSVShaderKind::Geometry => info is Geometry,
        PSVShaderKind::Pixel => info is Pixel,
        PSVShaderKind::Mesh => info is Mesh,
        PSVShaderKind::Amplification => info is Amplification,
        PSVShaderKind::Compute => info is Compute,
        _ => info is Other,
    }
}

/// The runs of words are as long as the counts say.
pub open spec fn runs_fit(runs: Seq<Seq<u32>>, counts: Seq<nat>) -> bool {
    runs.len() == counts.len() && forall|i: int| 0 <= i < runs.len() ==> (#[trigger] runs[i]).len() == counts[i]
}

/// The sections are as long as the runtime info says.
pub open spec fn sections_fit(s: SectionsModel, ri: PSVRuntimeInfo1) -> bool {
    &&& s.string_table.len() <= u32::MAX
    &&& s.semantic_index_table.len() <= u32::MAX
    &&& s.sig_input_elements.len() == ri.sig_input_elements
    &&& s.sig_output_elements.len() == ri.sig_output_elements
    &&& s.sig_patch_const_or_prim_elements.len() == ri.sig_patch_const_or_prim_elements
    &&& ri.sig_input_elements + ri.sig_output_elements + ri.sig_patch_const_or_prim_elements == 0
        ==> s.sig_element_size == 0
    &&& runs_fit(s.view_id_output_masks, view_mask_counts(ri))
    &&& s.view_id_pc_or_prim_output_mask.len() == view_patch_count(ri)
    &&& runs_fit(s.input_to_output_tables, table_counts(ri))
    &&& s.input_to_pc_output_table.len() == input_patch_count(ri)
    &&& s.pc_input_to_output_table.len() == patch_output_count(ri)
}

/// The chunk holds what its sizes say, no more and no less.
pub open spec fn psv_fits(p: PsvModel) -> bool {
    &&& p.info_size >= 24
    &&& p.runtime_info_1 is Some <==> p.info_size >= 36
    &&& p.runtime_info_2 is Some <==> p.info_size >= 48
    &&& p.entry_function_name is Some <==> p.info_size >= 52
    &&& p.num_bytes_group_shared_memory is Some <==> p.info_size >= 56
    &&& stage_fits(p.stage_info, kind_of(p.runtime_info_1))
    &&& p.resources.len() <= u32::MAX
    &&& p.resources.len() == 0 ==> p.resource_bind_info_size == 0
    &&& forall|i: int|
        0 <= i < p.resources.len() ==> ((#[trigger] p.resources[i]).res_kind is Some <==> p.resource_bind_info_size >= 24)
            && (p.resources[i].res_flags is Some <==> p.resource_bind_info_size >= 24)
    &&& match p.runtime_info_1 {
        Some(ri) => sections_fit(p.sections, ri),
        None => p.sections == SectionsModel::none(),
    }
}

proof fn lemma_words_come_back(data: Seq<u8>, at: int, words: Seq<u32>)
    requires
        stands_at(data, at, flat(words)),
    ensures
        words_at(data, at, words.len()) == Some((words, at + 4 * words.len())),
        flat(words).len() == 4 * words.len(),
{
    lemma_stands_words(data, at, words);
    lemma_flat_len(words);
    let got = (words_at(data, at, words.len())->0).0;
    assert forall|i: int| 0 <= i < words.len() implies got[i] == #[trigger] words[i] by {
        assert(le32(data, at + 4 * i) == words[i]);
    }
    assert(got =~= words);
}

proof fn lemma_runs_come_back(data: Seq<u8>, at: int, runs: Seq<Seq<u32>>, counts: Seq<nat>, n: nat)
    requires
        n <= runs.len(),
        runs_fit(runs, counts),
        stands_at(data, at, runs_bytes(runs, n)),
    ensures
        runs_at(data, at, counts, n) == Some((runs.take(n as int), at + runs_bytes(runs, n).len())),
    decreases n,
{
    if n == 0 {
        assert(runs.take(0) =~= Seq::empty());
    } else {
        let m = (n - 1) as nat;
        let before = runs_bytes(runs, m);
        let last = runs[n - 1];
        lemma_stands_split(data, at, before, flat(last));
        lemma_runs_come_back(data, at, runs, counts, m);
        lemma_words_come_back(data, at + before.len(), last);
        assert(runs.take(n as int) =~= runs.take(m as int).push(last));
    }
}

#[verifier::rlimit(60)]
#[verifier::spinoff_prover]
proof fn lemma_stage_comes_back(data: Seq<u8>, at: int, info: ShaderStageInfo, kind: PSVShaderKind)
    requires
        stands_at(data, at, stage_bytes(info)),
        stage_fits(info, kind),
    ensures
        stage_of(data, at, kind) == info,
        stage_bytes(info).len() == 16,
{
    match info {
        ShaderStageInfo::Other { raw } => {
            let got = super::parse::bytes_at(data, at);
            assert forall|k: int| 0 <= k < 16 implies got@[k] == raw@[k] by {
                lemma_stands_byte(data, at, raw@, k);
            }
            assert(got@ =~= raw@);
            assert(got =~= raw);
        },
        _ => {
            let words = stage_words(info);
            assert(stage_bytes(info) == flat(words));
            lemma_flat_len(words);
            lemma_stands_words(data, at, words);
            assert(le32(data, at + 4 * 0) == words[0]);
            assert(le32(data, at + 4 * 1) == words[1]);
            assert(le32(data, at + 4 * 2) == words[2]);
            assert(le32(data, at + 4 * 3) == words[3]);
        },
    }
}

/// The words that a known kind of shader has of its own.
spec fn stage_words(info: ShaderStageInfo) -> Seq<u32> {
    match info {
        ShaderStageInfo::Vertex { output_position_present } => seq![flag_word(output_position_present), 0u32, 0u32, 0u32],
        ShaderStageInfo::Hull {
            input_control_point_count,
            output_control_point_count,
            tessellator_domain,
            tessellator_output_primitive,
        } => seq![
            input_control_point_count,
            output_control_point_count,
            tessellator_domain,
            tessellator_output_primitive,
        ],
        ShaderStageInfo::Domain { input_control_point_count, output_position_present, tessellator_domain } => seq![
            input_control_point_count,
            flag_word(output_position_present),
            tessellator_domain,
            0u32,
        ],
        ShaderStageInfo::Geometry { input_primitive, output_topology, output_stream_mask, output_position_present } => seq![
            input_primitive,
            output_topology,
            output_stream_mask,
            flag_word(output_position_present),
        ],
        ShaderStageInfo::Pixel { depth_output, sample_frequency } => seq![
            (flag_word(depth_output) + 256 * flag_word(sample_frequency)) as u32,
            0u32,
            0u32,
            0u32,
        ],
        ShaderStageInfo::Mesh {
            group_shared_bytes_used,
            group_shared_bytes_dependent_on_view_id,
            payload_size_in_bytes,
            max_output_vertices,
            max_output_primitives,
        } => seq![
            group_shared_bytes_used,
            group_shared_bytes_dependent_on_view_id,
            payload_size_in_bytes,
            (max_output_vertices + 65536 * max_output_primitives) as u32,
        ],
        ShaderStageInfo::Amplification { payload_size_in_bytes } => seq![payload_size_in_bytes, 0u32, 0u32, 0u32],
        _ => seq![0u32, 0u32, 0u32, 0u32],
    }
}

proof fn lemma_info_1_comes_back(data: Seq<u8>, ri: PSVRuntimeInfo1)
    requires
        stands_at(data, 28, info_1_bytes(ri)),
    ensures
        info_1_of(data) == ri,
{
    let b = info_1_bytes(ri);
    lemma_stands_byte(data, 28, b, 0);
    lemma_stands_byte(data, 28, b, 1);
    lemma_stands_byte(data, 28, b, 2);
    lemma_stands_byte(data, 28, b, 3);
    lemma_stands_byte(data, 28, b, 4);
    lemma_stands_byte(data, 28, b, 5);
    lemma_stands_byte(data, 28, b, 6);
    lemma_stands_byte(data, 28, b, 7);
    lemma_stands_byte(data, 28, b, 8);
    lemma_stands_byte(data, 28, b, 9);
    lemma_stands_byte(data, 28, b, 10);
    lemma_stands_byte(data, 28, b, 11);
    assert(data.subrange(30, 32) =~= bytes16(ri.max_vert_or_patch_prim));
    lemma_read_back16(data, 30, ri.max_vert_or_patch_prim);
    assert(info_1_of(data).sig_output_vectors@ =~= ri.sig_output_vectors@);
    assert(info_1_of(data).sig_output_vectors =~= ri.sig_output_vectors);
}

/// A filled-up run of bytes, as long as the longer of the two.
proof fn lemma_filled_len(s: Seq<u8>, len: nat)
    ensures
        filled(s, len).len() == (if s.len() < len { len } else { s.len() }),
{
}

proof fn lemma_resources_come_back(data: Seq<u8>, at: int, resources: Seq<PSVResourceBindInfo>, size: u32, n: nat)
    requires
        n <= resources.len(),
        stands_at(data, at, resources_bytes(resources, size, n)),
        forall|i: int|
            0 <= i < resources.len() ==> ((#[trigger] resources[i]).res_kind is Some <==> size >= 24) && (
            resources[i].res_flags is Some <==> size >= 24),
    ensures
        resources_bytes(resources, size, n).len() == n * resource_step(size),
        forall|i: int|
            0 <= i < n ==> resource_of(data, at + i * resource_step(size), size) == #[trigger] resources[i],
    decreases n,
{
    let w = resource_step(size) as int;
    if n == 0 {
        assert(0 * w == 0) by (nonlinear_arith);
    } else {
        let m = (n - 1) as nat;
        let r = resources[m as int];
        let words = resource_words(r);
        let before = resources_bytes(resources, size, m);
        let last = filled(flat(words), size as nat);
        lemma_stands_split(data, at, before, last);
        lemma_resources_come_back(data, at, resources, size, m);
        lemma_flat_len(words);
        assert(m * w + w == n * w) by (nonlinear_arith)
            requires
                n == m + 1,
        ;
        let here = at + m * w;
        let pad = (if flat(words).len() < size { zeros((size - flat(words).len()) as nat) } else { Seq::<u8>::empty() });
        lemma_stands_split(data, here, flat(words), pad);
        lemma_stands_words(data, here, words);
        assert(le32(data, here + 4 * 0) == words[0]);
        assert(le32(data, here + 4 * 1) == words[1]);
        assert(le32(data, here + 4 * 2) == words[2]);
        assert(le32(data, here + 4 * 3) == words[3]);
        if size >= 24 {
            assert(le32(data, here + 4 * 4) == words[4]);
            assert(le32(data, here + 4 * 5) == words[5]);
        }
        assert(resource_of(data, here, size) == r);
    }
}

proof fn lemma_elements_come_back(data: Seq<u8>, at: int, elements: Seq<PSVSignatureElement>, size: u32, n: nat)
    requires
        n <= elements.len(),
        stands_at(data, at, elements_bytes(elements, size, n)),
    ensures
        elements_bytes(elements, size, n).len() == n * element_step(size),
        forall|i: int| 0 <= i < n ==> element_of(data, at + i * element_step(size)) == #[trigger] elements[i],
    decreases n,
{
    let w = element_step(size) as int;
    if n == 0 {
        assert(0 * w == 0) by (nonlinear_arith);
    } else {
        let m = (n - 1) as nat;
        let e = elements[m as int];
        let body = element_bytes(e);
        let before = elements_bytes(elements, size, m);
        let last = filled(body, size as nat);
        lemma_stands_split(data, at, before, last);
        lemma_elements_come_back(data, at, elements, size, m);
        let words = seq![e.semantic_name, e.semantic_indexes];
        lemma_flat_len(words);
        assert(m * w + w == n * w) by (nonlinear_arith)
            requires
                n == m + 1,
        ;
        let here = at + m * w;
        let pad = (if body.len() < size { zeros((size - body.len()) as nat) } else { Seq::<u8>::empty() });
        lemma_stands_split(data, here, body, pad);
        let tail = seq![
            e.rows,
            e.start_row,
            e.cols_and_start,
            e.semantic_kind,
            e.component_type,
            e.interpolation_mode,
            e.dynamic_mask_and_stream,
            e.reserved,
        ];
        lemma_stands_split(data, here, flat(words), tail);
        lemma_stands_words(data, here, words);
        assert(le32(data, here + 4 * 0) == words[0]);
        assert(le32(data, here + 4 * 1) == words[1]);
        lemma_stands_byte(data, here + 8, tail, 0);
        lemma_stands_byte(data, here + 8, tail, 1);
        lemma_stands_byte(data, here + 8, tail, 2);
        lemma_stands_byte(data, here + 8, tail, 3);
        lemma_stands_byte(data, here + 8, tail, 4);
        lemma_stands_byte(data, here + 8, tail, 5);
        lemma_stands_byte(data, here + 8, tail, 6);
        lemma_stands_byte(data, here + 8, tail, 7);
        assert(element_of(data, here) == e);
    }
}

proof fn lemma_element_list_comes_back(data: Seq<u8>, at: int, elements: Seq<PSVSignatureElement>, size: u32)
    requires
        stands_at(data, at, elements_bytes(elements, size, elements.len())),
    ensures
        elements_at(data, at, size, elements.len()) == Some(
            (elements, at + elements_bytes(elements, size, elements.len()).len()),
        ),
{
    let n = elements.len();
    lemma_elements_come_back(data, at, elements, size, n);
    let got = (elements_at(data, at, size, n)->0).0;
    assert(got =~= elements);
}

proof fn lemma_tables_come_back(data: Seq<u8>, at: int, s: SectionsModel)
    requires
        stands_at(data, at, tables_bytes(s)),
        s.string_table.len() <= u32::MAX,
        s.semantic_index_table.len() <= u32::MAX,
    ensures
        tables_at(data, at) == Some((s.string_table, s.semantic_index_table, at + tables_bytes(s).len())),
{
    let a = seq![s.string_table.len() as u32];
    let b = seq![s.semantic_index_table.len() as u32];
    let first = flat(a) + s.string_table;
    let second = flat(b) + flat(s.semantic_index_table);
    lemma_flat_len(a);
    lemma_flat_len(b);
    lemma_stands_split(data, at, first, second);
    lemma_stands_split(data, at, flat(a), s.string_table);
    lemma_stands_words(data, at, a);
    assert(le32(data, at + 4 * 0) == a[0]);
    let next = at + first.len();
    lemma_stands_split(data, next, flat(b), flat(s.semantic_index_table));
    lemma_stands_words(data, next, b);
    assert(le32(data, next + 4 * 0) == b[0]);
    lemma_words_come_back(data, next + 4, s.semantic_index_table);
}

proof fn lemma_signatures_come_back(data: Seq<u8>, at: int, s: SectionsModel, ri: PSVRuntimeInfo1)
    requires
        stands_at(data, at, signatures_bytes(s)),
        sections_fit(s, ri),
    ensures
        signatures_at(data, at, ri) == Some(
            (
                s.sig_element_size,
                s.sig_input_elements,
                s.sig_output_elements,
                s.sig_patch_const_or_prim_elements,
                at + signatures_bytes(s).len(),
            ),
        ),
{
    if s.sig_input_elements.len() + s.sig_output_elements.len() + s.sig_patch_const_or_prim_elements.len() == 0 {
        assert(s.sig_input_elements =~= Seq::empty());
        assert(s.sig_output_elements =~= Seq::empty());
        assert(s.sig_patch_const_or_prim_elements =~= Seq::empty());
    } else {
        let size = s.sig_element_size;
        let head = seq![size];
        let a = elements_bytes(s.sig_input_elements, size, s.sig_input_elements.len());
        let b = elements_bytes(s.sig_output_elements, size, s.sig_output_elements.len());
        let c = elements_bytes(
            s.sig_patch_const_or_prim_elements,
            size,
            s.sig_patch_const_or_prim_elements.len(),
        );
        lemma_flat_len(head);
        lemma_stands_split(data, at, flat(head) + a + b, c);
        lemma_stands_split(data, at, flat(head) + a, b);
        lemma_stands_split(data, at, flat(head), a);
        lemma_stands_words(data, at, head);
        assert(le32(data, at + 4 * 0) == head[0]);
        lemma_element_list_comes_back(data, at + 4, s.sig_input_elements, size);
        lemma_element_list_comes_back(data, at + 4 + a.len(), s.sig_output_elements, size);
        lemma_element_list_comes_back(data, at + 4 + a.len() + b.len(), s.sig_patch_const_or_prim_elements, size);
    }
}

proof fn lemma_dependencies_come_back(data: Seq<u8>, at: int, s: SectionsModel, ri: PSVRuntimeInfo1)
    requires
        stands_at(data, at, dependencies_bytes(s, ri.uses_view_id)),
        sections_fit(s, ri),
    ensures
        dependencies_at(data, at, ri) == Some(
            (
                s.view_id_output_masks,
                s.view_id_pc_or_prim_output_mask,
                s.input_to_output_tables,
                s.input_to_pc_output_table,
                s.pc_input_to_output_table,
            ),
        ),
{
    let views = views_bytes(s, ri.uses_view_id);
    let tables = runs_bytes(s.input_to_output_tables, s.input_to_output_tables.len());
    let c = flat(s.input_to_pc_output_table);
    let d = flat(s.pc_input_to_output_table);
    lemma_stands_split(data, at, views + tables + c, d);
    lemma_stands_split(data, at, views + tables, c);
    lemma_stands_split(data, at, views, tables);
    let masks = runs_bytes(s.view_id_output_masks, s.view_id_output_masks.len());
    let patch = flat(s.view_id_pc_or_prim_output_mask);
    lemma_flat_len(s.view_id_pc_or_prim_output_mask);
    if ri.uses_view_id != 0 {
        lemma_stands_split(data, at, masks, patch);
    } else {
        assert(masks =~= Seq::empty());
        assert(patch =~= Seq::empty());
        assert(data.subrange(at, at) =~= Seq::empty());
    }
    lemma_runs_come_back(
        data,
        at,
        s.view_id_output_masks,
        view_mask_counts(ri),
        s.view_id_output_masks.len(),
    );
    assert(s.view_id_output_masks.take(s.view_id_output_masks.len() as int) =~= s.view_id_output_masks);
    lemma_words_come_back(data, at + masks.len(), s.view_id_pc_or_prim_output_mask);
    let e2 = at + views.len();
    lemma_runs_come_back(data, e2, s.input_to_output_tables, table_counts(ri), s.input_to_output_tables.len());
    assert(s.input_to_output_tables.take(s.input_to_output_tables.len() as int) =~= s.input_to_output_tables);
    lemma_words_come_back(data, e2 + tables.len(), s.input_to_pc_output_table);
    lemma_words_come_back(data, e2 + tables.len() + c.len(), s.pc_input_to_output_table);
}

proof fn lemma_sections_come_back(data: Seq<u8>, at: int, s: SectionsModel, ri: PSVRuntimeInfo1)
    requires
        stands_at(data, at, sections_bytes(s, Some(ri))),
        sections_fit(s, ri),
    ensures
        sections_at(data, at, ri) == Some(s),
{
    let a = tables_bytes(s);
    let b = signatures_bytes(s);
    let c = dependencies_bytes(s, ri.uses_view_id);
    lemma_stands_split(data, at, a + b, c);
    lemma_stands_split(data, at, a, b);
    lemma_tables_come_back(data, at, s);
    lemma_signatures_come_back(data, at + a.len(), s, ri);
    lemma_dependencies_come_back(data, at + a.len() + b.len(), s, ri);
}

proof fn lemma_bindings_come_back(data: Seq<u8>, at: int, p: PsvModel)
    requires
        stands_at(data, at, bindings_bytes(p)),
        psv_fits(p),
    ensures
        bindings_at(data, at) == Some((p.resource_bind_info_size, p.resources, at + bindings_bytes(p).len())),
{
    if p.resources.len() == 0 {
        let head = seq![0u32];
        lemma_flat_len(head);
        lemma_stands_words(data, at, head);
        assert(le32(data, at + 4 * 0) == head[0]);
        assert(p.resources =~= Seq::empty());
    } else {
        let n = p.resources.len();
        let size = p.resource_bind_info_size;
        let head = seq![n as u32, size];
        let body = resources_bytes(p.resources, size, n);
        lemma_flat_len(head);
        lemma_stands_split(data, at, flat(head), body);
        lemma_stands_words(data, at, head);
        assert(le32(data, at + 4 * 0) == head[0]);
        assert(le32(data, at + 4 * 1) == head[1]);
        lemma_resources_come_back(data, at + 8, p.resources, size, n);
        let got = (resources_at(data, at + 8, size, n)->0).0;
        assert(got =~= p.resources);
    }
}

/// The length of the runtime info as far as it is known.
proof fn lemma_info_len(p: PsvModel)
    requires
        psv_fits(p),
    ensures
        info_bytes(p).len() == 24 + (if p.info_size >= 36 { 12int } else { 0 }) + (if p.info_size >= 48 {
            12int
        } else {
            0
        }) + (if p.info_size >= 52 { 4int } else { 0 }) + (if p.info_size >= 56 { 4int } else { 0 }),
        info_bytes(p).len() <= p.info_size,
{
    let words = later_words(p);
    lemma_flat_len(words);
    lemma_flat_len(seq![p.min_wave_lane_count, p.max_wave_lane_count]);
    match p.stage_info {
        ShaderStageInfo::Other { raw } => {},
        _ => {
            lemma_flat_len(stage_words(p.stage_info));
        },
    }
}

proof fn lemma_info_comes_back(data: Seq<u8>, p: PsvModel)
    requires
        stands_at(data, 4, info_bytes(p)),
        le32(data, 0) == p.info_size,
        psv_fits(p),
    ensures
        stage_of(data, 4, kind_of(p.runtime_info_1)) == p.stage_info,
        le32(data, 20) == p.min_wave_lane_count,
        le32(data, 24) == p.max_wave_lane_count,
        optional_info_1(data) == p.runtime_info_1,
        optional_info_2(data) == p.runtime_info_2,
        optional_word(data, 52, 52) == p.entry_function_name,
        optional_word(data, 56, 56) == p.num_bytes_group_shared_memory,
{
    let a = stage_bytes(p.stage_info);
    let counts = seq![p.min_wave_lane_count, p.max_wave_lane_count];
    let b = flat(counts);
    let c = optional_info_1_bytes(p.runtime_info_1);
    let words = later_words(p);
    let d = flat(words);
    lemma_flat_len(counts);
    lemma_flat_len(words);
    lemma_stands_split(data, 4, a + b + c, d);
    lemma_stands_split(data, 4, a + b, c);
    lemma_stands_split(data, 4, a, b);
    lemma_stage_comes_back(data, 4, p.stage_info, kind_of(p.runtime_info_1));
    lemma_stands_words(data, 20, counts);
    assert(le32(data, 20int + 4 * 0) == counts[0]);
    assert(le32(data, 20int + 4 * 1) == counts[1]);
    if p.info_size >= 36 {
        lemma_info_1_comes_back(data, p.runtime_info_1->0);
    }
    if p.info_size >= 48 {
        lemma_stands_words(data, 40, words);
        assert(le32(data, 40int + 4 * 0) == words[0]);
        assert(le32(data, 40int + 4 * 1) == words[1]);
        assert(le32(data, 40int + 4 * 2) == words[2]);
        if p.info_size >= 52 {
            assert(le32(data, 40int + 4 * 3) == words[3]);
        }
        if p.info_size >= 56 {
            assert(le32(data, 40int + 4 * 4) == words[4]);
        }
    }
}

/// Parsing what was written gives the chunk back, where it holds what its sizes say.
#[verifier::rlimit(60)]
#[verifier::spinoff_prover]
pub proof fn law_pipeline_state_comes_back(p: PsvModel)
    requires
        psv_fits(p),
    ensures
        psv_of(psv_bytes(p)) == Some(p),
{
    let data = psv_bytes(p);
    let head = seq![p.info_size];
    let info = filled(info_bytes(p), p.info_size as nat);
    let bindings = bindings_bytes(p);
    let sections = sections_bytes(p.sections, p.runtime_info_1);
    lemma_flat_len(head);
    assert(data.subrange(0, data.len() as int) =~= data);
    lemma_stands_split(data, 0, flat(head) + info + bindings, sections);
    lemma_stands_split(data, 0, flat(head) + info, bindings);
    lemma_stands_split(data, 0, flat(head), info);
    lemma_stands_words(data, 0, head);
    assert(le32(data, 0int + 4 * 0) == head[0]);
    lemma_info_len(p);
    lemma_filled_len(info_bytes(p), p.info_size as nat);
    let pad = (if info_bytes(p).len() < p.info_size {
        zeros((p.info_size - info_bytes(p).len()) as nat)
    } else {
        Seq::<u8>::empty()
    });
    lemma_stands_split(data, 4, info_bytes(p), pad);
    lemma_info_comes_back(data, p);
    let at = 4 + p.info_size as int;
    lemma_bindings_come_back(data, at, p);
    if p.runtime_info_1 is Some {
        lemma_sections_come_back(data, at + bindings.len(), p.sections, p.runtime_info_1->0);
    }
}

} // verus!
