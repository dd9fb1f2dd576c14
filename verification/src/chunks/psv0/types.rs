//! Pipeline state validation structures.
use vstd::prelude::*;

verus! {

/// Shader kind as encoded in PSVRuntimeInfo1.ShaderStage.
#[derive(Debug, Clone, Copy, PartialEq, Eq, Structural)]
pub enum PSVShaderKind {
    /// Pixel shader.
    Pixel,
    /// Vertex shader.
    Vertex,
    /// Geometry shader.
    Geometry,
    /// Hull shader.
    Hull,
    /// Domain shader.
    Domain,
    /// Compute shader.
    Compute,
    /// Shader library (SM6.3+).
    Library,
    /// Ray generation shader.
    RayGeneration,
    /// Ray intersection shader.
    Intersection,
    /// Ray any-hit shader.
    AnyHit,
    /// Ray closest-hit shader.
    ClosestHit,
    /// Ray miss shader.
    Miss,
    /// Ray callable shader.
    Callable,
    /// Mesh shader.
    Mesh,
    /// Amplification shader.
    Amplification,
    /// Work graph node shader.
    Node,
    /// Invalid or unrecognised shader kind.
    Invalid,
}

impl PSVShaderKind {
    /// The kind of a stored shader stage.
    pub open spec fn of(v: u8) -> PSVShaderKind {
        if v == 0 { PSVShaderKind::Pixel }
        else if v == 1 { PSVShaderKind::Vertex }
        else if v == 2 { PSVShaderKind::Geometry }
        else if v == 3 { PSVShaderKind::Hull }
        else if v == 4 { PSVShaderKind::Domain }
        else if v == 5 { PSVShaderKind::Compute }
        else if v == 6 { PSVShaderKind::Library }
        else if v == 7 { PSVShaderKind::RayGeneration }
        else if v == 8 { PSVShaderKind::Intersection }
        else if v == 9 { PSVShaderKind::AnyHit }
        else if v == 10 { PSVShaderKind::ClosestHit }
        else if v == 11 { PSVShaderKind::Miss }
        else if v == 12 { PSVShaderKind::Callable }
        else if v == 13 { PSVShaderKind::Mesh }
        else if v == 14 { PSVShaderKind::Amplification }
        else if v == 15 { PSVShaderKind::Node }
        else { PSVShaderKind::Invalid }
    }

    /// The short name of a kind.
    pub open spec fn name_text(self) -> Seq<char> {
        match self {
            PSVShaderKind::Pixel => "PS"@,
            PSVShaderKind::Vertex => "VS"@,
            PSVShaderKind::Geometry => "GS"@,
            PSVShaderKind::Hull => "HS"@,
            PSVShaderKind::Domain => "DS"@,
            PSVShaderKind::Compute => "CS"@,
            PSVShaderKind::Library => "Lib"@,
            PSVShaderKind::RayGeneration => "RayGen"@,
            PSVShaderKind::Intersection => "Intersection"@,
            PSVShaderKind::AnyHit => "AnyHit"@,
            PSVShaderKind::ClosestHit => "ClosestHit"@,
            PSVShaderKind::Miss => "Miss"@,
            PSVShaderKind::Callable => "Callable"@,
            PSVShaderKind::Mesh => "MS"@,
            PSVShaderKind::Amplification => "AS"@,
            PSVShaderKind::Node => "Node"@,
            PSVShaderKind::Invalid => "Invalid"@,
        }
    }

    /// Converts a stored shader stage value to the corresponding variant.
    pub fn from_u8(v: u8) -> (r: Self)
        ensures
            r == PSVShaderKind::of(v),
    {
        match v {
            0 => PSVShaderKind::Pixel,
            1 => PSVShaderKind::Vertex,
            2 => PSVShaderKind::Geometry,
            3 => PSVShaderKind::Hull,
            4 => PSVShaderKind::Domain,
            5 => PSVShaderKind::Compute,
            6 => PSVShaderKind::Library,
            7 => PSVShaderKind::RayGeneration,
            8 => PSVShaderKind::Intersection,
            9 => PSVShaderKind::AnyHit,
            10 => PSVShaderKind::ClosestHit,
            11 => PSVShaderKind::Miss,
            12 => PSVShaderKind::Callable,
            13 => PSVShaderKind::Mesh,
            14 => PSVShaderKind::Amplification,
            15 => PSVShaderKind::Node,
            _ => PSVShaderKind::Invalid,
        }
    }

    /// The short display name (`PS`, `VS`, `CS`).
    pub fn name(self) -> (r: &'static str)
        ensures
            r@ == self.name_text(),
    {
        match self {
            PSVShaderKind::Pixel => "PS",
            PSVShaderKind::Vertex => "VS",
            PSVShaderKind::Geometry => "GS",
            PSVShaderKind::Hull => "HS",
            PSVShaderKind::Domain => "DS",
            PSVShaderKind::Compute => "CS",
            PSVShaderKind::Library => "Lib",
            PSVShaderKind::RayGeneration => "RayGen",
            PSVShaderKind::Intersection => "Intersection",
            PSVShaderKind::AnyHit => "AnyHit",
            PSVShaderKind::ClosestHit => "ClosestHit",
            PSVShaderKind::Miss => "Miss",
            PSVShaderKind::Callable => "Callable",
            PSVShaderKind::Mesh => "MS",
            PSVShaderKind::Amplification => "AS",
            PSVShaderKind::Node => "Node",
            PSVShaderKind::Invalid => "Invalid",
        }
    }
}

/// Shader-kind-specific data from the PSVRuntimeInfo union.
#[derive(Debug, Clone, Copy)]
pub enum ShaderStageInfo {
    /// Vertex shader stage info.
    Vertex {
        /// Whether the shader writes `SV_Position`.
        output_position_present: bool,
    },
    /// Hull shader stage info.
    Hull {
        /// Number of input control points.
        input_control_point_count: u32,
        /// Number of output control points.
        output_control_point_count: u32,
        /// Tessellator domain (tri/quad/isoline).
        tessellator_domain: u32,
        /// Tessellator output primitive type.
        tessellator_output_primitive: u32,
    },
    /// Domain shader stage info.
    Domain {
        /// Number of input control points.
        input_control_point_count: u32,
        /// Whether the shader writes `SV_Position`.
        output_position_present: bool,
        /// Tessellator domain (tri/quad/isoline).
        tessellator_domain: u32,
    },
    /// Geometry shader stage info.
    Geometry {
        /// GS input primitive topology.
        input_primitive: u32,
        /// GS output topology.
        output_topology: u32,
        /// Bitmask of active output streams.
        output_stream_mask: u32,
        /// Whether the shader writes `SV_Position`.
        output_position_present: bool,
    },
    /// Pixel shader stage info.
    Pixel {
        /// Whether the shader writes depth.
        depth_output: bool,
        /// Whether the shader uses sample-frequency execution.
        sample_frequency: bool,
    },
    /// Mesh shader stage info.
    Mesh {
        /// Group-shared memory usage in bytes.
        group_shared_bytes_used: u32,
        /// Group-shared bytes that depend on `SV_ViewID`.
        group_shared_bytes_dependent_on_view_id: u32,
        /// Payload size in bytes for the mesh/amplification handshake.
        payload_size_in_bytes: u32,
        /// Maximum output vertex count.
        max_output_vertices: u16,
        /// Maximum output primitive count.
        max_output_primitives: u16,
    },
    /// Amplification shader stage info.
    Amplification {
        /// Payload size in bytes for the amplification/mesh handshake.
        payload_size_in_bytes: u32,
    },
    /// Compute shader (no extra fields).
    Compute,
    /// Unrecognised shader kind, its bytes kept.
    Other {
        /// Raw 16-byte stage info block.
        raw: [u8; 16],
    },
}

/// PSV resource binding (v0: 16 bytes, v2+: 24 bytes).
#[derive(Debug, Clone, Copy)]
pub struct PSVResourceBindInfo {
    /// Resource type (`D3D_SHADER_INPUT_TYPE` value).
    pub res_type: u32,
    /// Register space.
    pub space: u32,
    /// Lower bound of the register range.
    pub lower_bound: u32,
    /// Upper bound of the register range.
    pub upper_bound: u32,
    /// Resource kind (v2+ only).
    pub res_kind: Option<u32>,
    /// Resource flags (v2+ only).
    pub res_flags: Option<u32>,
}

/// PSV signature element (two words and eight bytes).
#[derive(Debug, Clone, Copy)]
pub struct PSVSignatureElement {
    /// Offset into the string table for the semantic name.
    pub semantic_name: u32,
    /// Offset into the semantic index table.
    pub semantic_indexes: u32,
    /// Number of rows occupied by this element.
    pub rows: u8,
    /// Starting row.
    pub start_row: u8,
    /// Packed: columns (low nibble) and start column (high nibble).
    pub cols_and_start: u8,
    /// System-value semantic kind.
    pub semantic_kind: u8,
    /// Component data type.
    pub component_type: u8,
    /// Interpolation mode.
    pub interpolation_mode: u8,
    /// Packed: dynamic index mask (low nibble) and output stream (high nibble).
    pub dynamic_mask_and_stream: u8,
    /// Reserved byte (must be zero).
    pub reserved: u8,
}

/// v1+ fields from PSVRuntimeInfo1.
#[derive(Debug, Clone, Copy)]
pub struct PSVRuntimeInfo1 {
    /// Shader stage (`PSVShaderKind` as `u8`).
    pub shader_stage: u8,
    /// Non-zero if the shader uses `SV_ViewID`.
    pub uses_view_id: u8,
    /// GS max vertex count or HS/DS max tess factor (union).
    pub max_vert_or_patch_prim: u16,
    /// Number of input signature elements.
    pub sig_input_elements: u8,
    /// Number of output signature elements.
    pub sig_output_elements: u8,
    /// Number of patch-constant or primitive signature elements.
    pub sig_patch_const_or_prim_elements: u8,
    /// Number of input signature vectors.
    pub sig_input_vectors: u8,
    /// Number of output signature vectors per output stream (up to 4).
    pub sig_output_vectors: [u8; 4],
}

/// v2+ fields from PSVRuntimeInfo2.
#[derive(Debug, Clone, Copy)]
pub struct PSVRuntimeInfo2 {
    /// Compute/mesh/amplification thread group X dimension.
    pub num_threads_x: u32,
    /// Compute/mesh/amplification thread group Y dimension.
    pub num_threads_y: u32,
    /// Compute/mesh/amplification thread group Z dimension.
    pub num_threads_z: u32,
}

impl Default for PSVRuntimeInfo1 {
    fn default() -> (r: Self)
        ensures
            r == (PSVRuntimeInfo1 {
                shader_stage: 0,
                uses_view_id: 0,
                max_vert_or_patch_prim: 0,
                sig_input_elements: 0,
                sig_output_elements: 0,
                sig_patch_const_or_prim_elements: 0,
                sig_input_vectors: 0,
                sig_output_vectors: [0, 0, 0, 0],
            }),
    {
        PSVRuntimeInfo1 {
            shader_stage: 0,
            uses_view_id: 0,
            max_vert_or_patch_prim: 0,
            sig_input_elements: 0,
            sig_output_elements: 0,
            sig_patch_const_or_prim_elements: 0,
            sig_input_vectors: 0,
            sig_output_vectors: [0, 0, 0, 0],
        }
    }
}

impl Default for PSVRuntimeInfo2 {
    fn default() -> (r: Self)
        ensures
            r == (PSVRuntimeInfo2 { num_threads_x: 0, num_threads_y: 0, num_threads_z: 0 }),
    {
        PSVRuntimeInfo2 { num_threads_x: 0, num_threads_y: 0, num_threads_z: 0 }
    }
}

/// Fully parsed PSV0 chunk.
#[derive(Debug, Clone)]
pub struct PipelineStateValidation {
    /// Size of the runtime info struct (determines PSV version).
    pub info_size: u32,
    /// Shader-kind-specific stage info from the runtime info union.
    pub stage_info: ShaderStageInfo,
    /// Minimum expected wave lane count.
    pub min_wave_lane_count: u32,
    /// Maximum expected wave lane count.
    pub max_wave_lane_count: u32,
    /// v1+ runtime info fields.
    pub runtime_info_1: Option<PSVRuntimeInfo1>,
    /// v2+ runtime info fields.
    pub runtime_info_2: Option<PSVRuntimeInfo2>,
    /// v3: entry function name offset into string table.
    pub entry_function_name: Option<u32>,
    /// v4: group shared memory bytes.
    pub num_bytes_group_shared_memory: Option<u32>,
    /// Size of resource bind info structs (0 if no resources).
    pub resource_bind_info_size: u32,
    /// Resource bindings.
    pub resources: Vec<PSVResourceBindInfo>,
    /// String table bytes (v1+, dword-aligned).
    pub string_table: Vec<u8>,
    /// Semantic index table entries (v1+).
    pub semantic_index_table: Vec<u32>,
    /// Signature element struct size (v1+, 0 if no elements).
    pub sig_element_size: u32,
    /// Input signature elements.
    pub sig_input_elements: Vec<PSVSignatureElement>,
    /// Output signature elements.
    pub sig_output_elements: Vec<PSVSignatureElement>,
    /// Patch constant or primitive signature elements.
    pub sig_patch_const_or_prim_elements: Vec<PSVSignatureElement>,
    /// ViewID output masks per stream (up to 4, each a `Vec<u32>`).
    pub view_id_output_masks: Vec<Vec<u32>>,
    /// ViewID patch constant / primitive output mask (HS/MS only).
    pub view_id_pc_or_prim_output_mask: Vec<u32>,
    /// Input-to-output dependency tables per stream.
    pub input_to_output_tables: Vec<Vec<u32>>,
    /// Input-to-patch-constant output table (HS only).
    pub input_to_pc_output_table: Vec<u32>,
    /// Patch-constant-to-output table (DS only).
    pub pc_input_to_output_table: Vec<u32>,
}

/// What the sections of a chunk from version one on hold.
#[verifier::ext_equal]
pub struct SectionsModel {
    pub string_table: Seq<u8>,
    pub semantic_index_table: Seq<u32>,
    pub sig_element_size: u32,
    pub sig_input_elements: Seq<PSVSignatureElement>,
    pub sig_output_elements: Seq<PSVSignatureElement>,
    pub sig_patch_const_or_prim_elements: Seq<PSVSignatureElement>,
    pub view_id_output_masks: Seq<Seq<u32>>,
    pub view_id_pc_or_prim_output_mask: Seq<u32>,
    pub input_to_output_tables: Seq<Seq<u32>>,
    pub input_to_pc_output_table: Seq<u32>,
    pub pc_input_to_output_table: Seq<u32>,
}

impl SectionsModel {
    /// What a chunk before version one holds of them.
    pub open spec fn none() -> SectionsModel {
        SectionsModel {
            string_table: Seq::empty(),
            semantic_index_table: Seq::empty(),
            sig_element_size: 0,
            sig_input_elements: Seq::empty(),
            sig_output_elements: Seq::empty(),
            sig_patch_const_or_prim_elements: Seq::empty(),
            view_id_output_masks: Seq::empty(),
            view_id_pc_or_prim_output_mask: Seq::empty(),
            input_to_output_tables: Seq::empty(),
            input_to_pc_output_table: Seq::empty(),
            pc_input_to_output_table: Seq::empty(),
        }
    }
}

/// What a chunk holds.
pub struct PsvModel {
    pub info_size: u32,
    pub stage_info: ShaderStageInfo,
    pub min_wave_lane_count: u32,
    pub max_wave_lane_count: u32,
    pub runtime_info_1: Option<PSVRuntimeInfo1>,
    pub runtime_info_2: Option<PSVRuntimeInfo2>,
    pub entry_function_name: Option<u32>,
    pub num_bytes_group_shared_memory: Option<u32>,
    pub resource_bind_info_size: u32,
    pub resources: Seq<PSVResourceBindInfo>,
    pub sections: SectionsModel,
}

/// What each run of words in a list holds.
pub open spec fn run_models(runs: Seq<Vec<u32>>) -> Seq<Seq<u32>> {
    Seq::new(runs.len(), |i: int| runs[i]@)
}

impl PipelineStateValidation {
    /// What the chunk holds.
    pub open spec fn view(&self) -> PsvModel {
        PsvModel {
            info_size: self.info_size,
            stage_info: self.stage_info,
            min_wave_lane_count: self.min_wave_lane_count,
            max_wave_lane_count: self.max_wave_lane_count,
            runtime_info_1: self.runtime_info_1,
            runtime_info_2: self.runtime_info_2,
            entry_function_name: self.entry_function_name,
            num_bytes_group_shared_memory: self.num_bytes_group_shared_memory,
            resource_bind_info_size: self.resource_bind_info_size,
            resources: self.resources@,
            sections: SectionsModel {
                string_table: self.string_table@,
                semantic_index_table: self.semantic_index_table@,
                sig_element_size: self.sig_element_size,
                sig_input_elements: self.sig_input_elements@,
                sig_output_elements: self.sig_output_elements@,
                sig_patch_const_or_prim_elements: self.sig_patch_const_or_prim_elements@,
                view_id_output_masks: run_models(self.view_id_output_masks@),
                view_id_pc_or_prim_output_mask: self.view_id_pc_or_prim_output_mask@,
                input_to_output_tables: run_models(self.input_to_output_tables@),
                input_to_pc_output_table: self.input_to_pc_output_table@,
                pc_input_to_output_table: self.pc_input_to_output_table@,
            },
        }
    }
}

} // verus!
