//! PSV0 parser.
use super::types::{
    run_models, PSVResourceBindInfo, PSVRuntimeInfo1, PSVRuntimeInfo2, PSVShaderKind, PSVSignatureElement,
    PipelineStateValidation, PsvModel, SectionsModel, ShaderStageInfo,
};
use crate::bytes::{copied_span, le16, le32, read_u16, read_u32, read_u8};
use vstd::prelude::*;

verus! {

/// How many words a mask over so many vectors takes.
pub open spec fn mask_words(vectors: nat) -> nat {
    (vectors + 7) / 8
}

/// How many words a dependency table takes.
pub open spec fn table_words(input_vectors: nat, output_vectors: nat) -> nat {
    mask_words(output_vectors) * input_vectors * 4
}

/// The words from one place on, and where they end, as far as the data holds them all.
pub open spec fn words_at(data: Seq<u8>, at: int, n: nat) -> Option<(Seq<u32>, int)> {
    if at + 4 * n <= data.len() {
        Some((Seq::new(n, |i: int| le32(data, at + 4 * i)), at + 4 * n))
    } else {
        None
    }
}

/// The first `n` runs of words, one behind the other, and where they end.
pub open spec fn runs_at(data: Seq<u8>, at: int, counts: Seq<nat>, n: nat) -> Option<(Seq<Seq<u32>>, int)>
    decreases n,
{
    if n == 0 {
        Some((Seq::empty(), at))
    } else {
        match runs_at(data, at, counts, (n - 1) as nat) {
            None => None,
            Some((runs, end)) => match words_at(data, end, counts[n - 1]) {
                None => None,
                Some((words, last)) => Some((runs.push(words), last)),
            },
        }
    }
}

/// The sixteen bytes from one place on.
pub open spec fn bytes_at(data: Seq<u8>, at: int) -> [u8; 16] {
    [
        data[at], data[at + 1], data[at + 2], data[at + 3], data[at + 4], data[at + 5], data[at + 6], data[at + 7],
        data[at + 8], data[at + 9], data[at + 10], data[at + 11], data[at + 12], data[at + 13], data[at + 14],
        data[at + 15],
    ]
}

/// The fields that a kind of shader has of its own, out of four words.
pub open spec fn stage_of(data: Seq<u8>, at: int, kind: PSVShaderKind) -> ShaderStageInfo {
    let a = le32(data, at);
    let b = le32(data, at + 4);
    let c = le32(data, at + 8);
    let d = le32(data, at + 12);
    match kind {
        PSVShaderKind::Vertex => ShaderStageInfo::Vertex { output_position_present: a % 256 != 0 },
        PSVShaderKind::Hull => ShaderStageInfo::Hull {
            input_control_point_count: a,
            output_control_point_count: b,
            tessellator_domain: c,
            tessellator_output_primitive: d,
        },
        PSVShaderKind::Domain => ShaderStageInfo::Domain {
            input_control_point_count: a,
            output_position_present: b % 256 != 0,
            tessellator_domain: c,
        },
        PSVShaderKind::Geometry => ShaderStageInfo::Geometry {
            input_primitive: a,
            output_topology: b,
            output_stream_mask: c,
            output_position_present: d % 256 != 0,
        },
        PSVShaderKind::Pixel => ShaderStageInfo::Pixel {
            depth_output: a % 256 != 0,
            sample_frequency: (a / 256) % 256 != 0,
        },
        PSVShaderKind::Mesh => ShaderStageInfo::Mesh {
            group_shared_bytes_used: a,
            group_shared_bytes_dependent_on_view_id: b,
            payload_size_in_bytes: c,
            max_output_vertices: (d % 65536) as u16,
            max_output_primitives: (d / 65536) as u16,
        },
        PSVShaderKind::Amplification => ShaderStageInfo::Amplification { payload_size_in_bytes: a },
        PSVShaderKind::Compute => ShaderStageInfo::Compute,
        _ => ShaderStageInfo::Other { raw: bytes_at(data, at) },
    }
}

/// The fields that version one adds.
pub open spec fn info_1_of(data: Seq<u8>) -> PSVRuntimeInfo1 {
    PSVRuntimeInfo1 {
        shader_stage: data[28],
        uses_view_id: data[29],
        max_vert_or_patch_prim: le16(data, 30),
        sig_input_elements: data[32],
        sig_output_elements: data[33],
        sig_patch_const_or_prim_elements: data[34],
        sig_input_vectors: data[35],
        sig_output_vectors: [data[36], data[37], data[38], data[39]],
    }
}

/// The shader kind, which only version one on states.
pub open spec fn kind_of(info: Option<PSVRuntimeInfo1>) -> PSVShaderKind {
    match info {
        Some(ri) => PSVShaderKind::of(ri.shader_stage),
        None => PSVShaderKind::Invalid,
    }
}

/// How many bytes of a resource binding are read.
pub open spec fn resource_need(size: u32) -> nat {
    if size >= 24 {
        24
    } else {
        16
    }
}

/// How many bytes lie between one resource binding and the next.
pub open spec fn resource_step(size: u32) -> nat {
    if size > resource_need(size) {
        size as nat
    } else {
        resource_need(size)
    }
}

/// The resource binding at a place.
pub open spec fn resource_of(data: Seq<u8>, at: int, size: u32) -> PSVResourceBindInfo {
    PSVResourceBindInfo {
        res_type: le32(data, at),
        space: le32(data, at + 4),
        lower_bound: le32(data, at + 8),
        upper_bound: le32(data, at + 12),
        res_kind: if size >= 24 {
            Some(le32(data, at + 16))
        } else {
            None
        },
        res_flags: if size >= 24 {
            Some(le32(data, at + 20))
        } else {
            None
        },
    }
}

/// The resource bindings from one place on, and where they end, as far as the data holds them all.
pub open spec fn resources_at(data: Seq<u8>, at: int, size: u32, n: nat) -> Option<(Seq<PSVResourceBindInfo>, int)> {
    let step = resource_step(size);
    if at + n * step <= data.len() {
        Some((Seq::new(n, |i: int| resource_of(data, at + i * step, size)), at + n * step))
    } else {
        None
    }
}

/// How many bytes lie between one signature element and the next.
pub open spec fn element_step(size: u32) -> nat {
    if size > 16 {
        size as nat
    } else {
        16
    }
}

/// The signature element at a place.
pub open spec fn element_of(data: Seq<u8>, at: int) -> PSVSignatureElement {
    PSVSignatureElement {
        semantic_name: le32(data, at),
        semantic_indexes: le32(data, at + 4),
        rows: data[at + 8],
        start_row: data[at + 9],
        cols_and_start: data[at + 10],
        semantic_kind: data[at + 11],
        component_type: data[at + 12],
        interpolation_mode: data[at + 13],
        dynamic_mask_and_stream: data[at + 14],
        reserved: data[at + 15],
    }
}

/// The signature elements from one place on, and where they end, as far as the data holds them all.
pub open spec fn elements_at(data: Seq<u8>, at: int, size: u32, n: nat) -> Option<(Seq<PSVSignatureElement>, int)> {
    let step = element_step(size);
    if at + n * step <= data.len() {
        Some((Seq::new(n, |i: int| element_of(data, at + i * step)), at + n * step))
    } else {
        None
    }
}

/// How many output streams are described: four for a geometry shader, else one.
pub open spec fn stream_count(kind: PSVShaderKind) -> nat {
    if kind == PSVShaderKind::Geometry {
        4
    } else {
        1
    }
}

/// How many vectors the patch constants or primitives take.
pub open spec fn patch_vectors(ri: PSVRuntimeInfo1) -> nat {
    (ri.max_vert_or_patch_prim % 256) as nat
}

/// How long the view masks are, one for each stream, where the shader uses the view.
pub open spec fn view_mask_counts(ri: PSVRuntimeInfo1) -> Seq<nat> {
    if ri.uses_view_id != 0 {
        Seq::new(
            stream_count(PSVShaderKind::of(ri.shader_stage)),
            |i: int| mask_words(ri.sig_output_vectors@[i] as nat),
        )
    } else {
        Seq::empty()
    }
}

/// How long the view mask of the patch constants or primitives is.
pub open spec fn view_patch_count(ri: PSVRuntimeInfo1) -> nat {
    let kind = PSVShaderKind::of(ri.shader_stage);
    if ri.uses_view_id != 0 && (kind == PSVShaderKind::Hull || kind == PSVShaderKind::Mesh) {
        mask_words(patch_vectors(ri))
    } else {
        0
    }
}

/// How long the tables from inputs to outputs are, one for each stream. A mesh shader has none.
pub open spec fn table_counts(ri: PSVRuntimeInfo1) -> Seq<nat> {
    let kind = PSVShaderKind::of(ri.shader_stage);
    Seq::new(
        stream_count(kind),
        |i: int|
            if kind == PSVShaderKind::Mesh {
                0nat
            } else {
                table_words(ri.sig_input_vectors as nat, ri.sig_output_vectors@[i] as nat)
            },
    )
}

/// How long the table from inputs to patch constants is, which only a hull shader has.
pub open spec fn input_patch_count(ri: PSVRuntimeInfo1) -> nat {
    if PSVShaderKind::of(ri.shader_stage) == PSVShaderKind::Hull {
        table_words(ri.sig_input_vectors as nat, patch_vectors(ri))
    } else {
        0
    }
}

/// How long the table from patch constants to outputs is, which only a domain shader has.
pub open spec fn patch_output_count(ri: PSVRuntimeInfo1) -> nat {
    if PSVShaderKind::of(ri.shader_stage) == PSVShaderKind::Domain {
        table_words(patch_vectors(ri), ri.sig_output_vectors@[0] as nat)
    } else {
        0
    }
}

/// The two tables at the start of the sections: the strings, the semantic indices, and where they end.
pub open spec fn tables_at(data: Seq<u8>, at: int) -> Option<(Seq<u8>, Seq<u32>, int)> {
    if at + 4 > data.len() || at + 4 + le32(data, at) + 4 > data.len() {
        None
    } else {
        let strings = data.subrange(at + 4, at + 4 + le32(data, at));
        let next = at + 4 + le32(data, at);
        match words_at(data, next + 4, le32(data, next) as nat) {
            None => None,
            Some((indices, end)) => Some((strings, indices, end)),
        }
    }
}

/// The signature elements of a chunk: their size, the three lists, and where they end. Without any element
/// not even the size is there.
pub open spec fn signatures_at(data: Seq<u8>, at: int, ri: PSVRuntimeInfo1) -> Option<
    (u32, Seq<PSVSignatureElement>, Seq<PSVSignatureElement>, Seq<PSVSignatureElement>, int),
> {
    if ri.sig_input_elements + ri.sig_output_elements + ri.sig_patch_const_or_prim_elements == 0 {
        Some((0, Seq::empty(), Seq::empty(), Seq::empty(), at))
    } else if at + 4 > data.len() {
        None
    } else {
        let size = le32(data, at);
        match elements_at(data, at + 4, size, ri.sig_input_elements as nat) {
            None => None,
            Some((inputs, e1)) => match elements_at(data, e1, size, ri.sig_output_elements as nat) {
                None => None,
                Some((outputs, e2)) => match elements_at(data, e2, size, ri.sig_patch_const_or_prim_elements as nat) {
                    None => None,
                    Some((patch, e3)) => Some((size, inputs, outputs, patch, e3)),
                },
            },
        }
    }
}

/// The masks and dependency tables of a chunk.
pub open spec fn dependencies_at(data: Seq<u8>, at: int, ri: PSVRuntimeInfo1) -> Option<
    (Seq<Seq<u32>>, Seq<u32>, Seq<Seq<u32>>, Seq<u32>, Seq<u32>),
> {
    match runs_at(data, at, view_mask_counts(ri), view_mask_counts(ri).len()) {
        None => None,
        Some((masks, e1)) => match words_at(data, e1, view_patch_count(ri)) {
            None => None,
            Some((patch_mask, e2)) => match runs_at(data, e2, table_counts(ri), table_counts(ri).len()) {
                None => None,
                Some((tables, e3)) => match words_at(data, e3, input_patch_count(ri)) {
                    None => None,
                    Some((input_patch, e4)) => match words_at(data, e4, patch_output_count(ri)) {
                        None => None,
                        Some((patch_output, _)) => Some((masks, patch_mask, tables, input_patch, patch_output)),
                    },
                },
            },
        },
    }
}

/// The sections from version one on.
pub open spec fn sections_at(data: Seq<u8>, at: int, ri: PSVRuntimeInfo1) -> Option<SectionsModel> {
    match tables_at(data, at) {
        None => None,
        Some((strings, indices, e1)) => match signatures_at(data, e1, ri) {
            None => None,
            Some((size, inputs, outputs, patch, e2)) => match dependencies_at(data, e2, ri) {
                None => None,
                Some((masks, patch_mask, tables, input_patch, patch_output)) => Some(
                    SectionsModel {
                        string_table: strings,
                        semantic_index_table: indices,
                        sig_element_size: size,
                        sig_input_elements: inputs,
                        sig_output_elements: outputs,
                        sig_patch_const_or_prim_elements: patch,
                        view_id_output_masks: masks,
                        view_id_pc_or_prim_output_mask: patch_mask,
                        input_to_output_tables: tables,
                        input_to_pc_output_table: input_patch,
                        pc_input_to_output_table: patch_output,
                    },
                ),
            },
        },
    }
}

/// The resource bindings of a chunk with their stated size, and where they end. Without any binding not even
/// the size is there.
pub open spec fn bindings_at(data: Seq<u8>, at: int) -> Option<(u32, Seq<PSVResourceBindInfo>, int)> {
    if at + 4 > data.len() {
        None
    } else if le32(data, at) == 0 {
        Some((0, Seq::empty(), at + 4))
    } else if at + 8 > data.len() {
        None
    } else {
        match resources_at(data, at + 8, le32(data, at + 4), le32(data, at) as nat) {
            None => None,
            Some((resources, end)) => Some((le32(data, at + 4), resources, end)),
        }
    }
}

/// The chunk has its size and a runtime info of that size.
pub open spec fn has_info(data: Seq<u8>) -> bool {
    data.len() >= 4 && le32(data, 0) >= 24 && 4 + le32(data, 0) <= data.len()
}

/// A word of the runtime info that only infos of at least a size have.
pub open spec fn optional_word(data: Seq<u8>, size: int, at: int) -> Option<u32> {
    if le32(data, 0) >= size {
        Some(le32(data, at))
    } else {
        None
    }
}

/// The fields that version one adds, where the info has them.
pub open spec fn optional_info_1(data: Seq<u8>) -> Option<PSVRuntimeInfo1> {
    if le32(data, 0) >= 36 {
        Some(info_1_of(data))
    } else {
        None
    }
}

/// The fields that version two adds, where the info has them.
pub open spec fn optional_info_2(data: Seq<u8>) -> Option<PSVRuntimeInfo2> {
    if le32(data, 0) >= 48 {
        Some(
            PSVRuntimeInfo2 {
                num_threads_x: le32(data, 40),
                num_threads_y: le32(data, 44),
                num_threads_z: le32(data, 48),
            },
        )
    } else {
        None
    }
}

/// What a chunk holds, where it can be read.
pub open spec fn psv_of(data: Seq<u8>) -> Option<PsvModel> {
    if !has_info(data) {
        None
    } else {
        let info = optional_info_1(data);
        match bindings_at(data, 4 + le32(data, 0)) {
            None => None,
            Some((bind_size, resources, end)) => {
                let sections = match info {
                    Some(ri) => sections_at(data, end, ri),
                    None => Some(SectionsModel::none()),
                };
                match sections {
                    None => None,
                    Some(held) => Some(
                        PsvModel {
                            info_size: le32(data, 0),
                            stage_info: stage_of(data, 4, kind_of(info)),
                            min_wave_lane_count: le32(data, 20),
                            max_wave_lane_count: le32(data, 24),
                            runtime_info_1: info,
                            runtime_info_2: optional_info_2(data),
                            entry_function_name: optional_word(data, 52, 52),
                            num_bytes_group_shared_memory: optional_word(data, 56, 56),
                            resource_bind_info_size: bind_size,
                            resources,
                            sections: held,
                        },
                    ),
                }
            },
        }
    }
}

fn word(data: &[u8], at: u64) -> (r: u32)
    requires
        at + 4 <= data@.len(),
    ensures
        r == le32(data@, at as int),
{
    match read_u32(data, at) {
        Some(v) => v,
        None => 0,
    }
}

fn byte(data: &[u8], at: u64) -> (r: u8)
    requires
        at + 1 <= data@.len(),
    ensures
        r == data@[at as int],
{
    match read_u8(data, at) {
        Some(v) => v,
        None => 0,
    }
}

fn half(data: &[u8], at: u64) -> (r: u16)
    requires
        at + 2 <= data@.len(),
    ensures
        r == le16(data@, at as int),
{
    match read_u16(data, at) {
        Some(v) => v,
        None => 0,
    }
}

/// Parse the fields that a kind of shader has of its own.
fn parse_stage_info(data: &[u8], kind: PSVShaderKind) -> (r: ShaderStageInfo)
    requires
        data@.len() >= 20,
    ensures
        r == stage_of(data@, 4, kind),
{
    let a: u32 = word(data, 4);
    let b: u32 = word(data, 8);
    let c: u32 = word(data, 12);
    let d: u32 = word(data, 16);
    match kind {
        PSVShaderKind::Vertex => ShaderStageInfo::Vertex { output_position_present: a % 256 != 0 },
        PSVShaderKind::Hull => ShaderStageInfo::Hull {
            input_control_point_count: a,
            output_control_point_count: b,
            tessellator_domain: c,
            tessellator_output_primitive: d,
        },
        PSVShaderKind::Domain => ShaderStageInfo::Domain {
            input_control_point_count: a,
            output_position_present: b % 256 != 0,
            tessellator_domain: c,
        },
        PSVShaderKind::Geometry => ShaderStageInfo::Geometry {
            input_primitive: a,
            output_topology: b,
            output_stream_mask: c,
            output_position_present: d % 256 != 0,
        },
        PSVShaderKind::Pixel => ShaderStageInfo::Pixel {
            depth_output: a % 256 != 0,
            sample_frequency: (a / 256) % 256 != 0,
        },
        PSVShaderKind::Mesh => ShaderStageInfo::Mesh {
            group_shared_bytes_used: a,
            group_shared_bytes_dependent_on_view_id: b,
            payload_size_in_bytes: c,
            max_output_vertices: (d % 65536) as u16,
            max_output_primitives: (d / 65536) as u16,
        },
        PSVShaderKind::Amplification => ShaderStageInfo::Amplification { payload_size_in_bytes: a },
        PSVShaderKind::Compute => ShaderStageInfo::Compute,
        _ => {
            let raw: [u8; 16] = [
                byte(data, 4), byte(data, 5), byte(data, 6), byte(data, 7), byte(data, 8), byte(data, 9), byte(data, 10),
                byte(data, 11), byte(data, 12), byte(data, 13), byte(data, 14), byte(data, 15), byte(data, 16),
                byte(data, 17), byte(data, 18), byte(data, 19),
            ];
            proof {
                assert(raw@ =~= bytes_at(data@, 4)@);
                assert(raw =~= bytes_at(data@, 4));
            }
            ShaderStageInfo::Other { raw }
        },
    }
}

fn parse_info_1(data: &[u8]) -> (r: PSVRuntimeInfo1)
    requires
        data@.len() >= 40,
    ensures
        r == info_1_of(data@),
{
    let vectors: [u8; 4] = [byte(data, 36), byte(data, 37), byte(data, 38), byte(data, 39)];
    let r = PSVRuntimeInfo1 {
        shader_stage: byte(data, 28),
        uses_view_id: byte(data, 29),
        max_vert_or_patch_prim: half(data, 30),
        sig_input_elements: byte(data, 32),
        sig_output_elements: byte(data, 33),
        sig_patch_const_or_prim_elements: byte(data, 34),
        sig_input_vectors: byte(data, 35),
        sig_output_vectors: vectors,
    };
    proof {
        assert(vectors@ =~= info_1_of(data@).sig_output_vectors@);
        assert(vectors =~= info_1_of(data@).sig_output_vectors);
    }
    r
}

/// Read words one behind the other.
fn read_u32s(data: &[u8], at: u64, count: u64) -> (r: Option<(Vec<u32>, u64)>)
    requires
        at <= data@.len(),
        count <= 0xFFFF_FFFF,
    ensures
        match r {
            Some((v, end)) => words_at(data@, at as int, count as nat) == Some((v@, end as int)) && end <= data@.len(),
            None => words_at(data@, at as int, count as nat) is None,
        },
{
    let len: u64 = data.len() as u64;
    if (len - at) / 4 < count {
        return None;
    }
    let ghost want = (words_at(data@, at as int, count as nat)->0).0;
    let mut v: Vec<u32> = Vec::new();
    let mut i: u64 = 0;
    while i < count
        invariant
            i <= count <= 0xFFFF_FFFF,
            len == data@.len(),
            at + 4 * count <= len,
            want == Seq::new(count as nat, |i: int| le32(data@, at + 4 * i)),
            v@ == want.take(i as int),
        decreases count - i,
    {
        v.push(word(data, at + 4 * i));
        i = i + 1;
        proof {
            assert(v@ =~= want.take(i as int));
        }
    }
    proof {
        assert(want.take(i as int) =~= want);
    }
    Some((v, at + 4 * count))
}

/// What each number of a list is.
pub open spec fn counts_of(counts: Seq<u64>) -> Seq<nat> {
    Seq::new(counts.len(), |i: int| counts[i] as nat)
}

fn read_runs(data: &[u8], at: u64, counts: &Vec<u64>) -> (r: Option<(Vec<Vec<u32>>, u64)>)
    requires
        at <= data@.len(),
        forall|i: int| 0 <= i < counts@.len() ==> #[trigger] counts@[i] <= 0xFFFF_FFFF,
    ensures
        match r {
            Some((v, end)) => runs_at(data@, at as int, counts_of(counts@), counts@.len()) == Some(
                (run_models(v@), end as int),
            ) && end <= data@.len(),
            None => runs_at(data@, at as int, counts_of(counts@), counts@.len()) is None,
        },
{
    let ghost all = counts_of(counts@);
    let mut runs: Vec<Vec<u32>> = Vec::new();
    let mut end: u64 = at;
    let mut i: usize = 0;
    proof {
        assert(run_models(runs@) =~= Seq::empty());
    }
    while i < counts.len()
        invariant
            i <= counts@.len(),
            all == counts_of(counts@),
            forall|i: int| 0 <= i < counts@.len() ==> #[trigger] counts@[i] <= 0xFFFF_FFFF,
            end <= data@.len(),
            runs_at(data@, at as int, all, i as nat) == Some((run_models(runs@), end as int)),
        decreases counts@.len() - i,
    {
        match read_u32s(data, end, counts[i]) {
            None => {
                proof {
                    lemma_runs_fail(data@, at as int, all, (i + 1) as nat, counts@.len());
                }
                return None;
            },
            Some((words, last)) => {
                let ghost before = run_models(runs@);
                let ghost m = words@;
                runs.push(words);
                end = last;
                proof {
                    assert(run_models(runs@) =~= before.push(m));
                }
            },
        }
        i = i + 1;
    }
    Some((runs, end))
}

proof fn lemma_runs_fail(data: Seq<u8>, at: int, counts: Seq<nat>, m: nat, n: nat)
    requires
        m <= n,
        runs_at(data, at, counts, m) is None,
    ensures
        runs_at(data, at, counts, n) is None,
    decreases n,
{
    if m < n {
        lemma_runs_fail(data, at, counts, m, (n - 1) as nat);
    }
}

fn read_resource(data: &[u8], at: u64, size: u32) -> (r: PSVResourceBindInfo)
    requires
        at + resource_need(size) <= data@.len(),
    ensures
        r == resource_of(data@, at as int, size),
{
    assert(data@.len() <= u64::MAX) by {
        assert(data.len() <= u64::MAX);
    }
    let more: bool = size >= 24;
    PSVResourceBindInfo {
        res_type: word(data, at),
        space: word(data, at + 4),
        lower_bound: word(data, at + 8),
        upper_bound: word(data, at + 12),
        res_kind: if more {
            Some(word(data, at + 16))
        } else {
            None
        },
        res_flags: if more {
            Some(word(data, at + 20))
        } else {
            None
        },
    }
}

fn read_resources(data: &[u8], at: u64, size: u32, count: u64) -> (r: Option<(Vec<PSVResourceBindInfo>, u64)>)
    requires
        at <= data@.len(),
        count <= 0xFFFF_FFFF,
    ensures
        match r {
            Some((v, end)) => resources_at(data@, at as int, size, count as nat) == Some((v@, end as int)) && end
                <= data@.len(),
            None => resources_at(data@, at as int, size, count as nat) is None,
        },
{
    let len: u64 = data.len() as u64;
    let need: u64 = if size >= 24 {
        24
    } else {
        16
    };
    let step: u64 = if size as u64 > need {
        size as u64
    } else {
        need
    };
    proof {
        let m = len - at;
        let c = count as int;
        let w = step as int;
        assert((m / w < c) == (c * w > m)) by (nonlinear_arith)
            requires
                m >= 0,
                w > 0,
                c >= 0,
        ;
    }
    if (len - at) / step < count {
        return None;
    }
    let mut v: Vec<PSVResourceBindInfo> = Vec::new();
    let mut i: u64 = 0;
    while i < count
        invariant
            i <= count <= 0xFFFF_FFFF,
            len == data@.len(),
            step == resource_step(size),
            step <= 0xFFFF_FFFF,
            at + count * step <= len,
            v@.len() == i,
            forall|k: int| 0 <= k < i ==> #[trigger] v@[k] == resource_of(data@, at + k * step, size),
        decreases count - i,
    {
        proof {
            let a = i as int;
            let c = count as int;
            let w = step as int;
            assert(0 <= a * w && a * w + w <= c * w) by (nonlinear_arith)
                requires
                    0 <= a < c,
                    w > 0,
            ;
        }
        let one = read_resource(data, at + i * step, size);
        v.push(one);
        i = i + 1;
    }
    proof {
        assert(v@ =~= (resources_at(data@, at as int, size, count as nat)->0).0);
    }
    Some((v, at + count * step))
}

/// Parse one signature element.
fn parse_sig_element(data: &[u8], at: u64) -> (r: PSVSignatureElement)
    requires
        at + 16 <= data@.len(),
    ensures
        r == element_of(data@, at as int),
{
    assert(data@.len() <= u64::MAX) by {
        assert(data.len() <= u64::MAX);
    }
    PSVSignatureElement {
        semantic_name: word(data, at),
        semantic_indexes: word(data, at + 4),
        rows: byte(data, at + 8),
        start_row: byte(data, at + 9),
        cols_and_start: byte(data, at + 10),
        semantic_kind: byte(data, at + 11),
        component_type: byte(data, at + 12),
        interpolation_mode: byte(data, at + 13),
        dynamic_mask_and_stream: byte(data, at + 14),
        reserved: byte(data, at + 15),
    }
}

fn read_elements(data: &[u8], at: u64, size: u32, count: u8) -> (r: Option<(Vec<PSVSignatureElement>, u64)>)
    requires
        at <= data@.len(),
    ensures
        match r {
            Some((v, end)) => elements_at(data@, at as int, size, count as nat) == Some((v@, end as int)) && end
                <= data@.len(),
            None => elements_at(data@, at as int, size, count as nat) is None,
        },
{
    let len: u64 = data.len() as u64;
    let step: u64 = if size > 16 {
        size as u64
    } else {
        16
    };
    let total: u64 = count as u64;
    proof {
        let m = len - at;
        let c = total as int;
        let w = step as int;
        assert((m / w < c) == (c * w > m)) by (nonlinear_arith)
            requires
                m >= 0,
                w > 0,
                c >= 0,
        ;
    }
    if (len - at) / step < total {
        return None;
    }
    let mut v: Vec<PSVSignatureElement> = Vec::new();
    let mut i: u64 = 0;
    while i < total
        invariant
            i <= total <= 255,
            len == data@.len(),
            step == element_step(size),
            step <= 0xFFFF_FFFF,
            at + total * step <= len,
            v@.len() == i,
            forall|k: int| 0 <= k < i ==> #[trigger] v@[k] == element_of(data@, at + k * step),
        decreases total - i,
    {
        proof {
            let a = i as int;
            let c = total as int;
            let w = step as int;
            assert(0 <= a * w && a * w + w <= c * w) by (nonlinear_arith)
                requires
                    0 <= a < c,
                    w > 0,
            ;
        }
        let one = parse_sig_element(data, at + i * step);
        v.push(one);
        i = i + 1;
    }
    proof {
        assert(v@ =~= (elements_at(data@, at as int, size, count as nat)->0).0);
    }
    Some((v, at + total * step))
}

fn mask_dwords_from_vectors(vectors: u64) -> (r: u64)
    requires
        vectors <= 255,
    ensures
        r == mask_words(vectors as nat),
        r <= 32,
{
    (vectors + 7) / 8
}

fn io_table_dwords(input_vectors: u64, output_vectors: u64) -> (r: u64)
    requires
        input_vectors <= 255,
        output_vectors <= 255,
    ensures
        r == table_words(input_vectors as nat, output_vectors as nat),
        r <= 32 * 255 * 4,
{
    let m: u64 = mask_dwords_from_vectors(output_vectors);
    proof {
        let a = m as int;
        let b = input_vectors as int;
        assert(0 <= a * b <= 32 * 255) by (nonlinear_arith)
            requires
                0 <= a <= 32,
                0 <= b <= 255,
        ;
    }
    m * input_vectors * 4
}

fn view_masks(ri: &PSVRuntimeInfo1) -> (r: Vec<u64>)
    ensures
        counts_of(r@) == view_mask_counts(*ri),
        forall|i: int| 0 <= i < r@.len() ==> #[trigger] r@[i] <= 0xFFFF_FFFF,
{
    let mut out: Vec<u64> = Vec::new();
    if ri.uses_view_id != 0 {
        out.push(mask_dwords_from_vectors(ri.sig_output_vectors[0] as u64));
        if PSVShaderKind::from_u8(ri.shader_stage) == PSVShaderKind::Geometry {
            out.push(mask_dwords_from_vectors(ri.sig_output_vectors[1] as u64));
            out.push(mask_dwords_from_vectors(ri.sig_output_vectors[2] as u64));
            out.push(mask_dwords_from_vectors(ri.sig_output_vectors[3] as u64));
        }
    }
    proof {
        assert(counts_of(out@) =~= view_mask_counts(*ri));
    }
    out
}

fn output_tables(ri: &PSVRuntimeInfo1) -> (r: Vec<u64>)
    ensures
        counts_of(r@) == table_counts(*ri),
        forall|i: int| 0 <= i < r@.len() ==> #[trigger] r@[i] <= 0xFFFF_FFFF,
{
    let kind = PSVShaderKind::from_u8(ri.shader_stage);
    let iv: u64 = ri.sig_input_vectors as u64;
    let mut out: Vec<u64> = Vec::new();
    if kind == PSVShaderKind::Mesh {
        out.push(0);
    } else {
        out.push(io_table_dwords(iv, ri.sig_output_vectors[0] as u64));
        if kind == PSVShaderKind::Geometry {
            out.push(io_table_dwords(iv, ri.sig_output_vectors[1] as u64));
            out.push(io_table_dwords(iv, ri.sig_output_vectors[2] as u64));
            out.push(io_table_dwords(iv, ri.sig_output_vectors[3] as u64));
        }
    }
    proof {
        assert(counts_of(out@) =~= table_counts(*ri));
    }
    out
}

fn parse_tables(data: &[u8], at: u64) -> (r: Option<(Vec<u8>, Vec<u32>, u64)>)
    requires
        at <= data@.len(),
    ensures
        match r {
            Some((strings, indices, end)) => tables_at(data@, at as int) == Some((strings@, indices@, end as int)) && end
                <= data@.len(),
            None => tables_at(data@, at as int) is None,
        },
{
    let len: u64 = data.len() as u64;
    if len - at < 4 {
        return None;
    }
    let size: u64 = word(data, at) as u64;
    if len - at - 4 < size || len - at - 4 - size < 4 {
        return None;
    }
    let next: u64 = at + 4 + size;
    let strings = copied_span(data, (at + 4) as usize, next as usize);
    let count: u64 = word(data, next) as u64;
    match read_u32s(data, next + 4, count) {
        None => None,
        Some((indices, end)) => Some((strings, indices, end)),
    }
}

fn parse_signatures(data: &[u8], at: u64, ri: &PSVRuntimeInfo1) -> (r: Option<
    (u32, Vec<PSVSignatureElement>, Vec<PSVSignatureElement>, Vec<PSVSignatureElement>, u64),
>)
    requires
        at <= data@.len(),
    ensures
        match r {
            Some((size, inputs, outputs, patch, end)) => signatures_at(data@, at as int, *ri) == Some(
                (size, inputs@, outputs@, patch@, end as int),
            ) && end <= data@.len(),
            None => signatures_at(data@, at as int, *ri) is None,
        },
{
    if ri.sig_input_elements == 0 && ri.sig_output_elements == 0 && ri.sig_patch_const_or_prim_elements == 0 {
        return Some((0, Vec::new(), Vec::new(), Vec::new(), at));
    }
    if data.len() as u64 - at < 4 {
        return None;
    }
    let size: u32 = word(data, at);
    match read_elements(data, at + 4, size, ri.sig_input_elements) {
        None => None,
        Some((inputs, e1)) => match read_elements(data, e1, size, ri.sig_output_elements) {
            None => None,
            Some((outputs, e2)) => match read_elements(data, e2, size, ri.sig_patch_const_or_prim_elements) {
                None => None,
                Some((patch, e3)) => Some((size, inputs, outputs, patch, e3)),
            },
        },
    }
}

fn parse_dependencies(data: &[u8], at: u64, ri: &PSVRuntimeInfo1) -> (r: Option<
    (Vec<Vec<u32>>, Vec<u32>, Vec<Vec<u32>>, Vec<u32>, Vec<u32>),
>)
    requires
        at <= data@.len(),
    ensures
        match r {
            Some((masks, patch_mask, tables, input_patch, patch_output)) => dependencies_at(data@, at as int, *ri)
                == Some((run_models(masks@), patch_mask@, run_models(tables@), input_patch@, patch_output@)),
            None => dependencies_at(data@, at as int, *ri) is None,
        },
{
    let kind = PSVShaderKind::from_u8(ri.shader_stage);
    let patch: u64 = (ri.max_vert_or_patch_prim % 256) as u64;
    let inputs: u64 = ri.sig_input_vectors as u64;
    let view_patch: u64 = if ri.uses_view_id != 0 && (kind == PSVShaderKind::Hull || kind == PSVShaderKind::Mesh) {
        mask_dwords_from_vectors(patch)
    } else {
        0
    };
    let input_patch: u64 = if kind == PSVShaderKind::Hull {
        io_table_dwords(inputs, patch)
    } else {
        0
    };
    let patch_output: u64 = if kind == PSVShaderKind::Domain {
        io_table_dwords(patch, ri.sig_output_vectors[0] as u64)
    } else {
        0
    };
    let mask_counts = view_masks(ri);
    let counts = output_tables(ri);
    let (masks, e1) = match read_runs(data, at, &mask_counts) {
        None => {
            return None;
        },
        Some(held) => held,
    };
    let (patch_mask, e2) = match read_u32s(data, e1, view_patch) {
        None => {
            return None;
        },
        Some(held) => held,
    };
    let (tables, e3) = match read_runs(data, e2, &counts) {
        None => {
            return None;
        },
        Some(held) => held,
    };
    let (in_patch, e4) = match read_u32s(data, e3, input_patch) {
        None => {
            return None;
        },
        Some(held) => held,
    };
    match read_u32s(data, e4, patch_output) {
        None => None,
        Some((out_patch, _)) => Some((masks, patch_mask, tables, in_patch, out_patch)),
    }
}

fn parse_bindings(data: &[u8], at: u64) -> (r: Option<(u32, Vec<PSVResourceBindInfo>, u64)>)
    requires
        at <= data@.len(),
    ensures
        match r {
            Some((size, resources, end)) => bindings_at(data@, at as int) == Some((size, resources@, end as int)) && end
                <= data@.len(),
            None => bindings_at(data@, at as int) is None,
        },
{
    let len: u64 = data.len() as u64;
    if len - at < 4 {
        return None;
    }
    let count: u64 = word(data, at) as u64;
    if count == 0 {
        return Some((0, Vec::new(), at + 4));
    }
    if len - at < 8 {
        return None;
    }
    let size: u32 = word(data, at + 4);
    match read_resources(data, at + 8, size, count) {
        None => None,
        Some((resources, end)) => Some((size, resources, end)),
    }
}

/// Parse a PSV0 chunk.
pub fn parse_psv0(data: &[u8]) -> (r: Option<PipelineStateValidation>)
    ensures
        match r {
            Some(v) => psv_of(data@) == Some(v@),
            None => psv_of(data@) is None,
        },
{
    if data.len() < 4 {
        return None;
    }
    let info_size: u32 = word(data, 0);
    let len: u64 = data.len() as u64;
    if info_size < 24 || len - 4 < info_size as u64 {
        return None;
    }
    let runtime_info_1 = if info_size >= 36 {
        Some(parse_info_1(data))
    } else {
        None
    };
    let kind = match runtime_info_1 {
        Some(ri) => PSVShaderKind::from_u8(ri.shader_stage),
        None => PSVShaderKind::Invalid,
    };
    let stage_info = parse_stage_info(data, kind);
    let runtime_info_2 = if info_size >= 48 {
        Some(
            PSVRuntimeInfo2 {
                num_threads_x: word(data, 40),
                num_threads_y: word(data, 44),
                num_threads_z: word(data, 48),
            },
        )
    } else {
        None
    };
    let entry_function_name = if info_size >= 52 {
        Some(word(data, 52))
    } else {
        None
    };
    let num_bytes_group_shared_memory = if info_size >= 56 {
        Some(word(data, 56))
    } else {
        None
    };
    let (resource_bind_info_size, resources, end) = match parse_bindings(data, 4 + info_size as u64) {
        None => {
            return None;
        },
        Some(held) => held,
    };
    let mut r = PipelineStateValidation {
        info_size,
        stage_info,
        min_wave_lane_count: word(data, 20),
        max_wave_lane_count: word(data, 24),
        runtime_info_1,
        runtime_info_2,
        entry_function_name,
        num_bytes_group_shared_memory,
        resource_bind_info_size,
        resources,
        string_table: Vec::new(),
        semantic_index_table: Vec::new(),
        sig_element_size: 0,
        sig_input_elements: Vec::new(),
        sig_output_elements: Vec::new(),
        sig_patch_const_or_prim_elements: Vec::new(),
        view_id_output_masks: Vec::new(),
        view_id_pc_or_prim_output_mask: Vec::new(),
        input_to_output_tables: Vec::new(),
        input_to_pc_output_table: Vec::new(),
        pc_input_to_output_table: Vec::new(),
    };
    if let Some(ri) = runtime_info_1 {
        let (strings, indices, e1) = match parse_tables(data, end) {
            None => {
                return None;
            },
            Some(held) => held,
        };
        let (size, inputs, outputs, patch, e2) = match parse_signatures(data, e1, &ri) {
            None => {
                return None;
            },
            Some(held) => held,
        };
        let (masks, patch_mask, tables, input_patch, patch_output) = match parse_dependencies(data, e2, &ri) {
            None => {
                return None;
            },
            Some(held) => held,
        };
        r.string_table = strings;
        r.semantic_index_table = indices;
        r.sig_element_size = size;
        r.sig_input_elements = inputs;
        r.sig_output_elements = outputs;
        r.sig_patch_const_or_prim_elements = patch;
        r.view_id_output_masks = masks;
        r.view_id_pc_or_prim_output_mask = patch_mask;
        r.input_to_output_tables = tables;
        r.input_to_pc_output_table = input_patch;
        r.pc_input_to_output_table = patch_output;
    } else {
        proof {
            assert(run_models(r.view_id_output_masks@) =~= Seq::empty());
            assert(run_models(r.input_to_output_tables@) =~= Seq::empty());
            assert(r@.sections =~= SectionsModel::none());
        }
    }
    Some(r)
}

} // verus!
